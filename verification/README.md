# super_native_extensions (verified core)

The decision logic of a Flutter plugin for clipboard, drag and drop, context
menus, hot keys and keyboard layouts, written in Verus and proved against its
contracts. The platform calls (JNI, AppKit, UIKit) are not part of the
library: each platform module holds what the platform code decides (which
operation a drop reports, which menu item to build, which clip item to make,
which rectangles cover an image's opaque part), and the caller performs the
platform calls.

Layout:

- `src/` the verified library: the managers of data providers, data sources,
  hot keys, keyboard layouts, drag and drop contexts and clipboard writers,
  the per thread context with its attachments, the blur of drag images, the
  error messages, and the per platform logic under `android/` and `darwin/`.
- `tests/` tests of the library on concrete values.
- `app/` glue that the library leaves to its caller: thread-local storage of
  the context, the blocking wait of value promises, file backed streams, the
  `Display` of errors and the floating point geometry of the API model.
