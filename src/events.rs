use vstd::prelude::*;
use crate::table::LabelTable;

verus! {

/// Which sessions an event is meant for.
#[derive(Debug, Clone)]
pub enum EventScope {
    /// Only the session that the event came from.
    Window,
    /// Every registered session.
    Global,
    /// Every registered session of this workspace.
    Vault(String),
}

/// The sessions that an event from `origin` reaches, given the routing
/// table `routes` from session id to workspace id.
pub open spec fn audience(routes: Map<Seq<char>, Seq<char>>, origin: Seq<char>, scope: EventScope) -> Set<Seq<char>> {
    match scope {
        EventScope::Window => set![origin],
        EventScope::Global => routes.dom(),
        EventScope::Vault(id) => routes.dom().filter(|k: Seq<char>| routes[k] == id@),
    }
}

/// Whether a session of workspace `value` is wanted: always, or when the
/// workspace is `vault`.
spec fn selects(vault: Option<&String>, value: String) -> bool {
    match vault {
        None => true,
        Some(id) => value@ == id@,
    }
}

/// The routing table: the workspace of each registered session.
pub struct EventBus {
    window_vaults: LabelTable<String>,
}

impl View for EventBus {
    type V = Map<Seq<char>, Seq<char>>;

    closed spec fn view(&self) -> Map<Seq<char>, Seq<char>> {
        self.window_vaults@.map_values(|v: String| v@)
    }
}

impl Default for EventBus {
    fn default() -> (r: Self)
        ensures
            r.wf(),
            r@ == Map::<Seq<char>, Seq<char>>::empty(),
    {
        Self::new()
    }
}

impl EventBus {
    pub closed spec fn wf(&self) -> bool {
        self.window_vaults.wf()
    }

    pub fn new() -> (r: Self)
        ensures
            r.wf(),
            r@ == Map::<Seq<char>, Seq<char>>::empty(),
    {
        let r = EventBus { window_vaults: LabelTable::new() };
        proof {
            assert(r@ =~= Map::<Seq<char>, Seq<char>>::empty());
        }
        r
    }

    /// Routes events of workspace `vault_id` to session `window_label`.
    pub fn register_window(&mut self, window_label: String, vault_id: String)
        requires
            old(self).wf(),
        ensures
            final(self).wf(),
            final(self)@ == old(self)@.insert(window_label@, vault_id@),
    {
        let ghost k = window_label@;
        let ghost v = vault_id@;
        self.window_vaults.insert(window_label, vault_id);
        proof {
            assert(self@ =~= old(self)@.insert(k, v));
        }
    }

    /// Stops routing to `window_label`; an unknown session changes nothing.
    pub fn unregister_window(&mut self, window_label: &str)
        requires
            old(self).wf(),
        ensures
            final(self).wf(),
            final(self)@ == old(self)@.remove(window_label@),
    {
        self.window_vaults.remove(window_label);
        proof {
            assert(self@ =~= old(self)@.remove(window_label@));
        }
    }

    /// The workspace of `window_label`.
    pub fn vault_of(&self, window_label: &str) -> (r: Option<&String>)
        requires
            self.wf(),
        ensures
            match r {
                Some(v) => self@.contains_key(window_label@) && v@ == self@[window_label@],
                None => !self@.contains_key(window_label@),
            },
    {
        self.window_vaults.get(window_label)
    }

    /// The sessions to deliver to: every registered one, or those of
    /// workspace `vault` only. Each appears once.
    fn members(&self, vault: Option<&String>) -> (r: Vec<String>)
        requires
            self.wf(),
        ensures
            crate::table::texts(r@).no_duplicates(),
            crate::table::texts(r@).to_set() == match vault {
                None => self@.dom(),
                Some(id) => self@.dom().filter(|k: Seq<char>| self@[k] == id@),
            },
    {
        let ghost keys = self.window_vaults.key_seq();
        let ghost values = self.window_vaults.value_seq();
        let n = self.window_vaults.len();
        let mut r: Vec<String> = Vec::new();
        let mut i: usize = 0;
        while i < n
            invariant
                self.wf(),
                keys == self.window_vaults.key_seq(),
                values == self.window_vaults.value_seq(),
                n == keys.len(),
                0 <= i <= n,
                crate::table::texts(r@).no_duplicates(),
                forall|x: Seq<char>| crate::table::texts(r@).contains(x) <==> exists|j: int| 0 <= j < i && keys[j] == x && #[trigger] selects(vault, values[j]),
            decreases n - i,
        {
            let take = match vault {
                None => true,
                Some(id) => *self.window_vaults.value_at(i) == *id,
            };
            proof {
                assert(take == selects(vault, values[i as int]));
            }
            if take {
                let ghost prev = r@;
                let key = self.window_vaults.key_at(i).clone();
                r.push(key);
                proof {
                    assert(crate::table::texts(r@) =~= crate::table::texts(prev).push(keys[i as int]));
                    assert(!crate::table::texts(prev).contains(keys[i as int])) by {
                        if crate::table::texts(prev).contains(keys[i as int]) {
                            let j = choose|j: int| 0 <= j < i && keys[j] == keys[i as int] && #[trigger] selects(vault, values[j]);
                        }
                    }
                    assert forall|x: Seq<char>| crate::table::texts(r@).contains(x) <==> exists|j: int| 0 <= j < i + 1 && keys[j] == x && #[trigger] selects(vault, values[j]) by {
                        if crate::table::texts(r@).contains(x) && x != keys[i as int] {
                            let m = choose|m: int| 0 <= m < crate::table::texts(r@).len() && crate::table::texts(r@)[m] == x;
                            assert(crate::table::texts(prev)[m] == x);
                            assert(crate::table::texts(prev).contains(x));
                        }
                        if x == keys[i as int] {
                            assert(selects(vault, values[i as int]));
                        }
                        if exists|j: int| 0 <= j < i + 1 && keys[j] == x && #[trigger] selects(vault, values[j]) {
                            let j = choose|j: int| 0 <= j < i + 1 && keys[j] == x && #[trigger] selects(vault, values[j]);
                            if j == i {
                                assert(crate::table::texts(r@)[prev.len() as int] == x);
                            } else {
                                assert(crate::table::texts(prev).contains(x));
                                let m = choose|m: int| 0 <= m < crate::table::texts(prev).len() && crate::table::texts(prev)[m] == x;
                                assert(crate::table::texts(r@)[m] == x);
                            }
                        }
                    }
                    assert(crate::table::texts(r@).no_duplicates()) by {
                        assert forall|a: int, b: int| 0 <= a < b < crate::table::texts(r@).len() implies crate::table::texts(r@)[a] != crate::table::texts(r@)[b] by {
                            if b == prev.len() {
                                assert(crate::table::texts(prev)[a] == crate::table::texts(r@)[a]);
                                assert(crate::table::texts(prev).contains(crate::table::texts(prev)[a]));
                            } else {
                                assert(crate::table::texts(prev)[a] == crate::table::texts(r@)[a]);
                                assert(crate::table::texts(prev)[b] == crate::table::texts(r@)[b]);
                            }
                        }
                    }
                }
            } else {
                proof {
                    assert forall|x: Seq<char>| crate::table::texts(r@).contains(x) <==> exists|j: int| 0 <= j < i + 1 && keys[j] == x && #[trigger] selects(vault, values[j]) by {
                        if exists|j: int| 0 <= j < i + 1 && keys[j] == x && #[trigger] selects(vault, values[j]) {
                            let j = choose|j: int| 0 <= j < i + 1 && keys[j] == x && #[trigger] selects(vault, values[j]);
                            assert(j != i);
                        }
                    }
                }
            }
            i += 1;
        }
        proof {
            let target = match vault {
                None => self@.dom(),
                Some(id) => self@.dom().filter(|k: Seq<char>| self@[k] == id@),
            };
            assert forall|x: Seq<char>| crate::table::texts(r@).to_set().contains(x) <==> target.contains(x) by {
                if crate::table::texts(r@).contains(x) {
                    let j = choose|j: int| 0 <= j < n && keys[j] == x && #[trigger] selects(vault, values[j]);
                    assert(self.window_vaults@.contains_key(keys[j]));
                }
                if target.contains(x) {
                    assert(self.window_vaults@.contains_key(x));
                    let j = choose|j: int| 0 <= j < keys.len() && keys[j] == x;
                    assert(self.window_vaults@.contains_key(keys[j]));
                    assert(selects(vault, values[j]));
                }
            }
            assert(crate::table::texts(r@).to_set() =~= target);
        }
        r
    }

    /// The sessions that an event with `scope` from `source_window` reaches:
    /// the source alone, every registered session, or every registered
    /// session of the workspace. Each appears once; none may appear at all.
    pub fn recipients(&self, source_window: &str, scope: &EventScope) -> (r: Vec<String>)
        requires
            self.wf(),
        ensures
            crate::table::texts(r@).no_duplicates(),
            crate::table::texts(r@).to_set() == audience(self@, source_window@, *scope),
    {
        match scope {
            EventScope::Window => {
                let mut r: Vec<String> = Vec::new();
                r.push(source_window.to_owned());
                proof {
                    assert(crate::table::texts(r@) =~= seq![source_window@]);
                    assert forall|x: Seq<char>| crate::table::texts(r@).to_set().contains(x) <==> set![source_window@].contains(x) by {
                        if x == source_window@ {
                            assert(crate::table::texts(r@)[0] == x);
                        }
                    }
                    assert(crate::table::texts(r@).to_set() =~= set![source_window@]);
                }
                r
            },
            EventScope::Global => self.members(None),
            EventScope::Vault(id) => self.members(Some(id)),
        }
    }
}

} // verus!
