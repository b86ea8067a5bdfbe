use vstd::prelude::*;

verus! {

/// Prepares the platform for a context; nothing needs preparing outside
/// Windows.
struct Initializer {}

impl Initializer {
    fn new() -> (res: Self) {
        Initializer {  }
    }
}

/// What a thread holds of its context: nothing, or the attachments of the
/// context associated with it, each under the key of its type, in the order in
/// which they were created.
pub struct ContextInternal<A> {
    attachments: Vec<(u64, A)>,
    _initializer: Initializer,
}

/// The keys of the attachments are distinct.
pub open spec fn distinct_keys<A>(s: Seq<(u64, A)>) -> bool {
    forall|i: int, j: int| 0 <= i < j < s.len() ==> (#[trigger] s[i]).0 != (#[trigger] s[j]).0
}

/// Whether some attachment has key `key`.
pub open spec fn has_key<A>(s: Seq<(u64, A)>, key: u64) -> bool {
    exists|i: int| 0 <= i < s.len() && (#[trigger] s[i]).0 == key
}

impl<A> ContextInternal<A> {
    pub closed spec fn attachments_view(&self) -> Seq<(u64, A)> {
        self.attachments@
    }

    pub open spec fn wf(&self) -> bool {
        distinct_keys(self.attachments_view())
    }
}

/// The index of the attachment with key `key`, if there is one.
fn find_key<A>(attachments: &Vec<(u64, A)>, key: u64) -> (res: Option<usize>)
    ensures
        match res {
            Some(i) => i < attachments@.len() && attachments@[i as int].0 == key,
            None => !has_key(attachments@, key),
        },
{
    let mut i: usize = 0;
    while i < attachments.len()
        invariant
            i <= attachments@.len(),
            forall|j: int| 0 <= j < i ==> (#[trigger] attachments@[j]).0 != key,
        decreases attachments@.len() - i,
    {
        if attachments[i].0 == key {
            return Some(i);
        }
        i = i + 1;
    }
    None
}

/// The slot of a thread for its context.
pub struct ThreadContext<A> {
    current: Option<ContextInternal<A>>,
}

impl<A> ThreadContext<A> {
    pub closed spec fn current_view(&self) -> Option<ContextInternal<A>> {
        self.current
    }

    pub open spec fn wf(&self) -> bool {
        self.current_view() matches Some(c) ==> c.wf()
    }

    /// A thread that no context is associated with.
    pub fn new() -> (res: Self)
        ensures
            res.wf(),
            res.current_view() is None,
    {
        ThreadContext { current: None }
    }

    /// The attachments of the thread's context, in the order of creation.
    pub open spec fn attachments(&self) -> Seq<(u64, A)> {
        match self.current_view() {
            Some(c) => c.attachments_view(),
            None => Seq::empty(),
        }
    }
}

/// A handle to the context of the current thread. The handle made by
/// `Context::new` is the outermost one: when it goes, the context goes.
pub struct Context {
    outermost: bool,
}

impl Context {
    pub closed spec fn is_outermost(&self) -> bool {
        self.outermost
    }

    /// Creates the context of the current thread. A thread has one context at
    /// a time: creating a second one while the first is alive is a mistake.
    pub fn new<A>(thread: &mut ThreadContext<A>) -> (res: Context)
        requires
            old(thread).current_view() is None,
        ensures
            res.is_outermost(),
            final(thread).wf(),
            final(thread).current_view() is Some,
            final(thread).attachments() == Seq::<(u64, A)>::empty(),
    {
        thread.current = Some(ContextInternal { attachments: Vec::new(), _initializer: Initializer::new() });
        Context { outermost: true }
    }

    /// The context of the current thread, if one is associated with it.
    pub fn current<A>(thread: &ThreadContext<A>) -> (res: Option<Context>)
        ensures
            res is Some == thread.current_view() is Some,
            res matches Some(c) ==> !c.is_outermost(),
    {
        match &thread.current {
            Some(_) => Some(Context { outermost: false }),
            None => None,
        }
    }

    /// The context of the current thread, which must exist.
    pub fn get<A>(thread: &ThreadContext<A>) -> (res: Context)
        requires
            thread.current_view() is Some,
        ensures
            !res.is_outermost(),
    {
        Context { outermost: false }
    }

    /// Another handle to the same context; it is never the outermost one.
    pub fn clone(&self) -> (res: Context)
        ensures
            !res.is_outermost(),
    {
        Context { outermost: false }
    }

    /// The attachment of type key `key`, created by `on_init` on first use.
    /// Later calls give the same attachment and do not call `on_init`.
    pub fn get_attachment<'a, A, F: FnOnce() -> A>(
        &self,
        thread: &'a mut ThreadContext<A>,
        key: u64,
        on_init: F,
    ) -> (res: &'a A)
        requires
            old(thread).wf(),
            old(thread).current_view() is Some,
            call_requires(on_init, ()),
        ensures
            final(thread).wf(),
            final(thread).current_view() is Some,
            has_key(old(thread).attachments(), key) ==> final(thread).attachments() == old(thread).attachments() && exists|i: int|
                0 <= i < old(thread).attachments().len() && (#[trigger] old(thread).attachments()[i]).0 == key && old(thread).attachments()[i].1 == *res,
            !has_key(old(thread).attachments(), key) ==> final(thread).attachments() == old(thread).attachments().push((key, *res)) && call_ensures(on_init, (), *res),
    {
        let mut internal = match thread.current.take() {
            Some(c) => c,
            None => vstd::pervasive::unreached(),
        };
        let ghost before = internal.attachments@;
        let index = match find_key(&internal.attachments, key) {
            Some(index) => index,
            None => {
                let n = internal.attachments.len();
                let attachment = on_init();
                internal.attachments.push((key, attachment));
                proof {
                    assert forall|a: int, b: int|
                        0 <= a < b < internal.attachments@.len() implies (
                    #[trigger] internal.attachments@[a]).0 != (
                    #[trigger] internal.attachments@[b]).0 by {
                        if b == n {
                            assert(internal.attachments@[a] == before[a]);
                            assert(!(before[a].0 == key));
                        }
                    }
                }
                n
            },
        };
        thread.current = Some(internal);
        match &thread.current {
            Some(c) => &c.attachments[index].1,
            None => vstd::pervasive::unreached(),
        }
    }

    /// The attachment under `key`, if one was created; the first half of
    /// `get_attachment` for callers whose initialiser may itself ask the
    /// context for attachments.
    pub fn attachment<'a, A>(&self, thread: &'a ThreadContext<A>, key: u64) -> (res: Option<&'a A>)
        ensures
            has_key(thread.attachments(), key) ==> (res matches Some(a) && exists|i: int|
                0 <= i < thread.attachments().len() && (#[trigger] thread.attachments()[i]).0
                    == key && thread.attachments()[i].1 == *a),
            !has_key(thread.attachments(), key) ==> res is None,
    {
        match &thread.current {
            Some(c) => match find_key(&c.attachments, key) {
                Some(i) => Some(&c.attachments[i].1),
                None => None,
            },
            None => None,
        }
    }

    /// Stores `attachment` under `key`, the second half of `get_attachment`:
    /// a new key becomes the newest attachment; a key that the initialiser
    /// created meanwhile gets the new attachment in its place.
    pub fn insert_attachment<A>(&self, thread: &mut ThreadContext<A>, key: u64, attachment: A)
        requires
            old(thread).wf(),
            old(thread).current_view() is Some,
        ensures
            final(thread).wf(),
            final(thread).current_view() is Some,
            !has_key(old(thread).attachments(), key) ==> final(thread).attachments()
                == old(thread).attachments().push((key, attachment)),
            has_key(old(thread).attachments(), key) ==> exists|i: int|
                0 <= i < old(thread).attachments().len() && (#[trigger] old(thread).attachments()[i]).0
                    == key && final(thread).attachments() == old(thread).attachments().update(
                    i,
                    (key, attachment),
                ),
    {
        let mut internal = match thread.current.take() {
            Some(c) => c,
            None => vstd::pervasive::unreached(),
        };
        let ghost before = internal.attachments@;
        match find_key(&internal.attachments, key) {
            Some(i) => {
                internal.attachments.set(i, (key, attachment));
                proof {
                    assert forall|a: int, b: int|
                        0 <= a < b < internal.attachments@.len() implies (
                    #[trigger] internal.attachments@[a]).0 != (
                    #[trigger] internal.attachments@[b]).0 by {
                        assert(internal.attachments@[a].0 == before[a].0);
                        assert(internal.attachments@[b].0 == before[b].0);
                    }
                }
            },
            None => {
                let n = internal.attachments.len();
                internal.attachments.push((key, attachment));
                proof {
                    assert forall|a: int, b: int|
                        0 <= a < b < internal.attachments@.len() implies (
                    #[trigger] internal.attachments@[a]).0 != (
                    #[trigger] internal.attachments@[b]).0 by {
                        if b == n {
                            assert(internal.attachments@[a] == before[a]);
                            assert(!(before[a].0 == key));
                        }
                    }
                }
            },
        }
        thread.current = Some(internal);
    }

    /// One step of letting go of this handle. For the outermost handle: while
    /// the context has attachments, takes down the newest one and hands it out,
    /// the context staying current so that the attachment can still reach it
    /// while it goes; once none is left, the thread is left without a context.
    /// Another handle leaves everything as it is.
    pub fn release_step<A>(&self, thread: &mut ThreadContext<A>) -> (removed: Option<A>)
        requires
            old(thread).wf(),
        ensures
            final(thread).wf(),
            !self.is_outermost() ==> removed is None && *final(thread) == *old(thread),
            self.is_outermost() && old(thread).attachments().len() > 0 ==> ({
                &&& removed == Some(old(thread).attachments().last().1)
                &&& final(thread).current_view() is Some
                &&& final(thread).attachments() == old(thread).attachments().drop_last()
            }),
            self.is_outermost() && old(thread).attachments().len() == 0 ==> removed is None
                && final(thread).current_view() is None,
    {
        if !self.outermost {
            return None;
        }
        let mut internal = match thread.current.take() {
            Some(c) => c,
            None => {
                return None;
            },
        };
        let ghost before = internal.attachments@;
        match internal.attachments.pop() {
            Some(entry) => {
                proof {
                    assert(internal.attachments@ =~= before.drop_last());
                }
                thread.current = Some(internal);
                Some(entry.1)
            },
            None => None,
        }
    }
}

/// An attachment is created at most once per key: once an attachment was
/// added under `key`, the key is present, so a later request finds it and
/// creates nothing.
pub proof fn lemma_attachment_created_once<A>(attachments: Seq<(u64, A)>, key: u64, attachment: A)
    ensures
        has_key(attachments.push((key, attachment)), key),
{
    assert(attachments.push((key, attachment))[attachments.len() as int].0 == key);
}

/// What taking a context down `k` steps hands out: the newest attachment
/// first.
pub open spec fn taken_down<A>(attachments: Seq<(u64, A)>, k: nat) -> Seq<A>
    decreases k,
{
    if k == 0 || attachments.len() == 0 {
        Seq::empty()
    } else {
        seq![attachments.last().1] + taken_down(attachments.drop_last(), (k - 1) as nat)
    }
}

/// Taking a context down removes the attachments last first: step by step,
/// `release_step` hands out the attachments in the reverse of the order in
/// which they were created, the one created last going first and the one
/// created first going last.
pub proof fn lemma_release_order<A>(attachments: Seq<(u64, A)>)
    ensures
        taken_down(attachments, attachments.len()) == attachments.reverse().map_values(
            |e: (u64, A)| e.1,
        ),
    decreases attachments.len(),
{
    if attachments.len() > 0 {
        let rest = attachments.drop_last();
        lemma_release_order(rest);
        assert(attachments.reverse() =~= seq![attachments.last()] + rest.reverse());
        assert(taken_down(attachments, attachments.len()) =~= attachments.reverse().map_values(
            |e: (u64, A)| e.1,
        ));
    } else {
        assert(taken_down(attachments, 0) =~= attachments.reverse().map_values(|e: (u64, A)| e.1));
    }
}

} // verus!
