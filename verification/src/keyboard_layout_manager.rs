use vstd::prelude::*;

verus! {

/// One key of a keyboard layout: its platform and physical codes and what it
/// types alone and with the modifiers.
#[derive(Debug, Clone, Copy, PartialEq, Eq)]
pub struct Key {
    pub platform: i64,
    pub physical: i64,
    pub logical: Option<i64>,
    pub logical_shift: Option<i64>,
    pub logical_alt: Option<i64>,
    pub logical_alt_shift: Option<i64>,
    pub logical_meta: Option<i64>,
}

/// The keys of the current keyboard layout.
#[derive(Debug, Clone, PartialEq, Eq)]
pub struct KeyboardLayout {
    pub keys: Vec<Key>,
}

/// Hears when the keyboard layout changes.
pub trait KeyboardLayoutDelegate {
    fn keyboard_map_did_change(&self);
}

/// The isolates that asked for the keyboard layout; they hear of its changes.
pub struct KeyboardLayoutManager {
    isolates: Vec<i64>,
}

impl KeyboardLayoutManager {
    pub closed spec fn isolates_view(&self) -> Seq<i64> {
        self.isolates@
    }

    /// The isolates as a set.
    pub open spec fn listeners(&self) -> Set<i64> {
        self.isolates_view().to_set()
    }

    pub open spec fn wf(&self) -> bool {
        self.isolates_view().no_duplicates()
    }

    pub fn new() -> (res: Self)
        ensures
            res.wf(),
            res.listeners() == Set::<i64>::empty(),
    {
        let res = KeyboardLayoutManager { isolates: Vec::new() };
        assert(res.listeners() =~= Set::<i64>::empty());
        res
    }

    /// An isolate asks for the layout: from now on it hears of changes.
    pub fn get_keyboard_layout(&mut self, isolate: i64)
        requires
            old(self).wf(),
        ensures
            final(self).wf(),
            final(self).listeners() == old(self).listeners().insert(isolate),
    {
        let mut i: usize = 0;
        while i < self.isolates.len()
            invariant
                i <= self.isolates@.len(),
                self.isolates@ == old(self).isolates@,
                old(self).wf(),
                forall|j: int| 0 <= j < i ==> self.isolates@[j] != isolate,
            decreases self.isolates@.len() - i,
        {
            if self.isolates[i] == isolate {
                assert(old(self).listeners().insert(isolate) =~= old(self).listeners());
                return;
            }
            i = i + 1;
        }
        self.isolates.push(isolate);
        proof {
            old(self).isolates@.lemma_push_to_set_commute(isolate);
        }
    }

    /// An isolate goes away: it hears of no more changes.
    pub fn on_isolate_destroyed(&mut self, isolate: i64)
        requires
            old(self).wf(),
        ensures
            final(self).wf(),
            final(self).listeners() == old(self).listeners().remove(isolate),
    {
        let ghost s0 = self.isolates@;
        let mut kept: Vec<i64> = Vec::new();
        let mut i: usize = 0;
        while i < self.isolates.len()
            invariant
                i <= s0.len(),
                self.isolates@ == s0,
                s0.no_duplicates(),
                kept@.no_duplicates(),
                forall|x: i64| kept@.contains(x) <==> (s0.take(i as int).contains(x) && x != isolate),
            decreases s0.len() - i,
        {
            let x = self.isolates[i];
            proof {
                assert(s0.take(i + 1) == s0.take(i as int).push(x));
                assert(!s0.take(i as int).contains(x)) by {
                    if s0.take(i as int).contains(x) {
                        let j = choose|j: int| 0 <= j < i && s0.take(i as int)[j] == x;
                        assert(s0[j] == s0[i as int]);
                    }
                }
            }
            let ghost k0 = kept@;
            if x != isolate {
                kept.push(x);
                proof {
                    assert(!k0.contains(x));
                    assert forall|a: int, b: int| 0 <= a < b < kept@.len() implies kept@[a] != kept@[b] by {
                        if b == kept@.len() - 1 {
                            assert(k0.contains(kept@[a]));
                        }
                    }
                }
            }
            proof {
                assert forall|y: i64| kept@.contains(y) <==> (s0.take(i + 1).contains(y) && y != isolate) by {
                    if kept@.contains(y) && y != x {
                        let j = choose|j: int| 0 <= j < kept@.len() && kept@[j] == y;
                        assert(k0[j] == y);
                        assert(k0.contains(y));
                    }
                    if s0.take(i + 1).contains(y) && y != isolate && y != x {
                        let t = s0.take(i + 1);
                        let j = choose|j: int| 0 <= j < t.len() && t[j] == y;
                        assert(j < i);
                        assert(s0.take(i as int)[j] == y);
                        assert(k0.contains(y));
                        let m = choose|m: int| 0 <= m < k0.len() && k0[m] == y;
                        assert(kept@[m] == y);
                    }
                    if y == x && x != isolate {
                        assert(kept@[kept@.len() - 1] == y);
                        assert(s0.take(i + 1)[i as int] == y);
                    }
                }
            }
            i = i + 1;
        }
        self.isolates = kept;
        proof {
            assert(s0.take(s0.len() as int) == s0);
            assert(self.listeners() =~= old(self).listeners().remove(isolate));
        }
    }

    /// The isolates to tell that the layout changed, each once.
    pub fn isolates_to_notify(&self) -> (res: Vec<i64>)
        requires
            self.wf(),
        ensures
            res@.no_duplicates(),
            res@.to_set() == self.listeners(),
    {
        self.isolates.clone()
    }
}

} // verus!
