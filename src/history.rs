//! The persisted per-directory history of picked tests, with the migration
//! from the older one-test-per-directory layout.

use crate::entries::{
    keys_unique, lemma_map_of_lookup, lemma_map_of_push, lemma_map_of_remove,
    lemma_map_of_update, map_of, position_of, set_entry,
};
use crate::text::same_text;
use vstd::prelude::*;

verus! {

/// What `clear` removes: the current directory's entries, or everything.
#[derive(Debug, Clone, Copy, PartialEq, Eq, Structural)]
pub enum CacheClearOption {
    Current,
    All,
}

impl CacheClearOption {
    /// Reads the option from its name, `current` or `all`.
    pub fn from_name(s: &str) -> (r: Result<CacheClearOption, String>)
        ensures
            s@ == "current"@ ==> r == Ok::<CacheClearOption, String>(CacheClearOption::Current),
            s@ == "all"@ ==> r == Ok::<CacheClearOption, String>(CacheClearOption::All),
            s@ != "current"@ && s@ != "all"@ ==> r is Err && r->Err_0@
                == "invalid cache clear option: "@ + s@,
    {
        proof {
            reveal_strlit("current");
            reveal_strlit("all");
            assert("current"@[0] != "all"@[0]);
            assert("current"@ != "all"@);
        }
        if same_text(s, "current") {
            Ok(CacheClearOption::Current)
        } else if same_text(s, "all") {
            Ok(CacheClearOption::All)
        } else {
            let mut msg = String::from_str("invalid cache clear option: ");
            msg.append(s);
            Err(msg)
        }
    }
}

impl core::str::FromStr for CacheClearOption {
    type Err = String;

    fn from_str(s: &str) -> Result<CacheClearOption, String> {
        CacheClearOption::from_name(s)
    }
}

/// What a persisted state holds: for each directory its list of picked
/// tests, oldest first, and the legacy map from directory to one test.
/// Either map may be absent.
pub struct StateModel {
    pub test_history: Option<Map<Seq<char>, Seq<Seq<char>>>>,
    pub last_test: Option<Map<Seq<char>, Seq<char>>>,
}

/// How a history list is seen in the model.
pub open spec fn history_value() -> spec_fn(Vec<String>) -> Seq<Seq<char>> {
    |v: Vec<String>| v.deep_view()
}

/// How a legacy entry is seen in the model.
pub open spec fn legacy_value() -> spec_fn(String) -> Seq<char> {
    |t: String| t@
}

/// The state that lists of `(directory, ...)` pairs stand for.
pub open spec fn parts_model(
    h: Option<Seq<(String, Vec<String>)>>,
    l: Option<Seq<(String, String)>>,
) -> StateModel {
    StateModel {
        test_history: match h {
            Some(s) => Some(map_of(s, history_value())),
            None => None,
        },
        last_test: match l {
            Some(s) => Some(map_of(s, legacy_value())),
            None => None,
        },
    }
}

/// The tests recorded for directory `d`, if any.
pub open spec fn history_of(m: StateModel, d: Seq<char>) -> Option<Seq<Seq<char>>> {
    match m.test_history {
        Some(h) => if h.contains_key(d) {
            Some(h[d])
        } else {
            None
        },
        None => None,
    }
}

/// The history map, empty where it is absent.
pub open spec fn history_or_empty(m: StateModel) -> Map<Seq<char>, Seq<Seq<char>>> {
    match m.test_history {
        Some(h) => h,
        None => Map::empty(),
    }
}

/// `m` after test `x` was appended to the history of directory `d`.
pub open spec fn appended(m: StateModel, d: Seq<char>, x: Seq<char>) -> StateModel {
    let h = history_or_empty(m);
    let cur = if h.contains_key(d) {
        h[d]
    } else {
        Seq::empty()
    };
    StateModel { test_history: Some(h.insert(d, cur.push(x))), last_test: m.last_test }
}

/// `m` after `clear`, with `here` the current directory.
pub open spec fn cleared(m: StateModel, opt: CacheClearOption, here: Seq<char>) -> StateModel {
    match opt {
        CacheClearOption::Current => StateModel {
            test_history: match m.test_history {
                Some(h) => Some(h.remove(here)),
                None => None,
            },
            last_test: match m.last_test {
                Some(l) => Some(l.remove(here)),
                None => None,
            },
        },
        CacheClearOption::All => StateModel { test_history: None, last_test: None },
    }
}

/// The history map `h` with each legacy entry of `l` turned into a list of
/// one test, replacing what `h` held for that directory.
pub open spec fn merge_legacy(
    h: Map<Seq<char>, Seq<Seq<char>>>,
    l: Map<Seq<char>, Seq<char>>,
) -> Map<Seq<char>, Seq<Seq<char>>> {
    Map::new(
        |k: Seq<char>| h.contains_key(k) || l.contains_key(k),
        |k: Seq<char>|
            if l.contains_key(k) {
                seq![l[k]]
            } else {
                h[k]
            },
    )
}

/// `m` after migration: legacy entries moved into the history, legacy map
/// gone. Without a legacy entry the history is left as it is.
pub open spec fn migrated(m: StateModel) -> StateModel {
    match m.last_test {
        Some(l) => if l == Map::<Seq<char>, Seq<char>>::empty() {
            StateModel { test_history: m.test_history, last_test: None }
        } else {
            StateModel {
                test_history: Some(merge_legacy(history_or_empty(m), l)),
                last_test: None,
            }
        },
        None => m,
    }
}

/// The cache's content: the history lists and the legacy entries, each an
/// association list with one pair per directory.
pub struct PersistedState {
    test_history: Option<Vec<(String, Vec<String>)>>,
    last_test: Option<Vec<(String, String)>>,
}

impl View for PersistedState {
    type V = StateModel;

    closed spec fn view(&self) -> StateModel {
        parts_model(self.history_seq(), self.legacy_seq())
    }
}

impl Default for PersistedState {
    fn default() -> (r: PersistedState)
        ensures
            r.wf(),
            r@ == (StateModel { test_history: None, last_test: None }),
    {
        PersistedState::new()
    }
}

impl PersistedState {
    /// The history pairs as they are held.
    pub closed spec fn history_seq(&self) -> Option<Seq<(String, Vec<String>)>> {
        match self.test_history {
            Some(v) => Some(v@),
            None => None,
        }
    }

    /// The legacy pairs as they are held.
    pub closed spec fn legacy_seq(&self) -> Option<Seq<(String, String)>> {
        match self.last_test {
            Some(v) => Some(v@),
            None => None,
        }
    }

    /// Each directory appears at most once in each list.
    pub closed spec fn wf(&self) -> bool {
        &&& (self.test_history matches Some(v) ==> keys_unique(v@))
        &&& (self.last_test matches Some(v) ==> keys_unique(v@))
    }

    /// The empty state: neither map present.
    pub fn new() -> (r: PersistedState)
        ensures
            r.wf(),
            r@ == (StateModel { test_history: None, last_test: None }),
    {
        PersistedState { test_history: None, last_test: None }
    }

    /// The tests recorded for directory `dir`, oldest first, or `None` when
    /// nothing is recorded for it. Legacy entries are never read: a state
    /// that holds them without a history must be migrated first.
    pub fn history(&self, dir: &String) -> (r: Option<Vec<String>>)
        requires
            self.wf(),
            !(self@.test_history is None && self@.last_test is Some),
        ensures
            match r {
                Some(v) => history_of(self@, dir@) == Some(v.deep_view()),
                None => history_of(self@, dir@) is None,
            },
    {
        match &self.test_history {
            Some(h) => {
                proof {
                    lemma_map_of_lookup(h@, history_value());
                }
                match position_of(h, dir) {
                    Some(i) => Some(h[i].1.clone()),
                    None => None,
                }
            },
            None => None,
        }
    }

    /// Appends test `test` to the history of directory `dir`, creating the
    /// history where there is none.
    pub fn append(&mut self, dir: String, test: String)
        requires
            old(self).wf(),
        ensures
            final(self).wf(),
            final(self)@ == appended(old(self)@, dir@, test@),
    {
        let ghost m0 = self@;
        let mut h = match self.test_history.take() {
            Some(h) => h,
            None => Vec::new(),
        };
        let ghost h0 = h@;
        assert(map_of(h0, history_value()) == history_or_empty(m0));
        proof {
            lemma_map_of_lookup(h0, history_value());
        }
        let found = position_of(&h, &dir);
        let mut list = match found {
            Some(i) => h[i].1.clone(),
            None => Vec::new(),
        };
        let ghost l0 = list.deep_view();
        proof {
            match found {
                Some(i) => {
                    assert(l0 =~= h0[i as int].1.deep_view());
                    assert(map_of(h0, history_value())[h0[i as int].0@] == h0[i as int].1.deep_view());
                },
                None => {
                    assert(l0 =~= Seq::<Seq<char>>::empty());
                    assert(!map_of(h0, history_value()).contains_key(dir@));
                },
            }
        }
        list.push(test);
        assert(list.deep_view() =~= l0.push(test@));
        let key = dir;
        let pos = set_entry(&mut h, key, list);
        proof {
            match pos {
                Some(i) => lemma_map_of_update(h0, i as int, h@[i as int], history_value()),
                None => lemma_map_of_push(h0, h@.last(), history_value()),
            }
        }
        self.test_history = Some(h);
        assert(self@.test_history =~= appended(m0, key@, test@).test_history);
    }

    /// Clears the entries of directory `here` from both maps, or everything.
    pub fn clear(&mut self, clear_option: CacheClearOption, here: &String)
        requires
            old(self).wf(),
        ensures
            final(self).wf(),
            final(self)@ == cleared(old(self)@, clear_option, here@),
    {
        match clear_option {
            CacheClearOption::Current => {
                if let Some(h) = &mut self.test_history {
                    Self::remove_key::<Vec<String>, Seq<Seq<char>>>(h, here);
                }
                if let Some(l) = &mut self.last_test {
                    Self::remove_key::<String, Seq<char>>(l, here);
                }
            },
            CacheClearOption::All => {
                self.test_history = None;
                self.last_test = None;
            },
        }
    }


    /// Moves every legacy entry into the history as a list of one test,
    /// replacing the history of that directory, and drops the legacy map.
    /// Without a legacy map nothing changes.
    pub fn migrate_settings(&mut self)
        requires
            old(self).wf(),
        ensures
            final(self).wf(),
            final(self)@ == migrated(old(self)@),
    {
        let ghost m0 = self@;
        if let Some(legacy) = self.last_test.take() {
            if legacy.len() == 0 {
                assert(map_of(legacy@, legacy_value()) =~= Map::<Seq<char>, Seq<char>>::empty());
                return;
            }
            proof {
                lemma_map_of_lookup(legacy@, legacy_value());
                assert(map_of(legacy@, legacy_value()).contains_key(legacy@[0].0@));
            }
            let mut h = match self.test_history.take() {
                Some(h) => h,
                None => Vec::new(),
            };
            let ghost h0 = map_of(h@, history_value());
            assert(h0 == history_or_empty(m0));
            let ghost l = legacy@;
            let mut i: usize = 0;
            assert(l.take(0) =~= Seq::<(String, String)>::empty());
            assert(merge_legacy(h0, map_of(l.take(0), legacy_value())) =~= h0);
            while i < legacy.len()
                invariant
                    l == legacy@,
                    i <= l.len(),
                    keys_unique(h@),
                    map_of(h@, history_value()) == merge_legacy(
                        h0,
                        map_of(l.take(i as int), legacy_value()),
                    ),
                decreases l.len() - i,
            {
                let dir = legacy[i].0.clone();
                let test = legacy[i].1.clone();
                let ghost hb = h@;
                let list = vec![test];
                assert(list.deep_view() =~= seq![l[i as int].1@]);
                let pos = set_entry(&mut h, dir, list);
                proof {
                    match pos {
                        Some(j) => lemma_map_of_update(hb, j as int, h@[j as int], history_value()),
                        None => lemma_map_of_push(hb, h@.last(), history_value()),
                    }
                    assert(l.take(i + 1).drop_last() =~= l.take(i as int));
                    assert(map_of(h@, history_value()) =~= merge_legacy(
                        h0,
                        map_of(l.take(i + 1), legacy_value()),
                    ));
                }
                i = i + 1;
            }
            assert(l.take(l.len() as int) =~= l);
            self.test_history = Some(h);
        }
    }

    /// Builds a state from its two lists of pairs, either of which may be
    /// absent. Where a directory occurs twice, the later pair wins.
    pub fn from_parts(
        test_history: Option<Vec<(String, Vec<String>)>>,
        last_test: Option<Vec<(String, String)>>,
    ) -> (r: PersistedState)
        ensures
            r.wf(),
            r@ == parts_model(
                match test_history {
                    Some(v) => Some(v@),
                    None => None,
                },
                match last_test {
                    Some(v) => Some(v@),
                    None => None,
                },
            ),
    {
        let h = match test_history {
            Some(v) => Some(Self::dedup::<Vec<String>, Seq<Seq<char>>>(v)),
            None => None,
        };
        let l = match last_test {
            Some(v) => Some(Self::dedup::<String, Seq<char>>(v)),
            None => None,
        };
        PersistedState { test_history: h, last_test: l }
    }

    /// The same map with one pair per key.
    fn dedup<V, W>(v: Vec<(String, V)>) -> (r: Vec<(String, V)>)
        ensures
            keys_unique(r@),
            forall|f: spec_fn(V) -> W| #[trigger] map_of(r@, f) == map_of(v@, f),
    {
        let ghost s = v@;
        assert(v@.len() == v.len());
        let mut rest = v;
        let mut out: Vec<(String, V)> = Vec::new();
        let mut i: usize = 0;
        while rest.len() > 0
            invariant
                s.len() <= usize::MAX,
                i + rest@.len() == s.len(),
                rest@ == s.subrange(i as int, s.len() as int),
                keys_unique(out@),
                forall|f: spec_fn(V) -> W|
                    #[trigger] map_of(out@, f) == map_of(s.take(i as int), f),
            decreases rest@.len(),
        {
            let ghost ob = out@;
            let (k, x) = rest.remove(0);
            assert(s[i as int] == (k, x));
            let pos = set_entry(&mut out, k, x);
            proof {
                assert(s.take(i + 1).drop_last() =~= s.take(i as int));
                assert(s.take(i + 1).last() == s[i as int]);
                assert forall|f: spec_fn(V) -> W|
                    #[trigger] map_of(out@, f) == map_of(s.take(i + 1), f) by {
                    match pos {
                        Some(j) => lemma_map_of_update(ob, j as int, out@[j as int], f),
                        None => lemma_map_of_push(ob, out@.last(), f),
                    }
                }
            }
            i = i + 1;
            assert(rest@ =~= s.subrange(i as int, s.len() as int));
        }
        assert(s.take(i as int) =~= s);
        out
    }

    /// The history pairs, one per directory, or `None` when the history is
    /// absent.
    pub fn history_entries(&self) -> (r: Option<&Vec<(String, Vec<String>)>>)
        requires
            self.wf(),
        ensures
            match r {
                Some(v) => self.history_seq() == Some(v@) && keys_unique(v@),
                None => self.history_seq() is None,
            },
    {
        self.test_history.as_ref()
    }

    /// The legacy pairs, one per directory, or `None` when there are none.
    pub fn legacy_entries(&self) -> (r: Option<&Vec<(String, String)>>)
        requires
            self.wf(),
        ensures
            match r {
                Some(v) => self.legacy_seq() == Some(v@) && keys_unique(v@),
                None => self.legacy_seq() is None,
            },
    {
        self.last_test.as_ref()
    }


    /// Removes the pair with key `key`, if any.
    fn remove_key<V, W>(entries: &mut Vec<(String, V)>, key: &String)
        requires
            keys_unique(old(entries)@),
        ensures
            keys_unique(final(entries)@),
            forall|f: spec_fn(V) -> W|
                #[trigger] map_of(final(entries)@, f) == map_of(old(entries)@, f).remove(key@),
    {
        let ghost e0 = entries@;
        match position_of(entries, key) {
            Some(i) => {
                let _ = entries.remove(i);
                assert forall|f: spec_fn(V) -> W|
                    #[trigger] map_of(entries@, f) == map_of(e0, f).remove(key@) by {
                    lemma_map_of_remove(e0, i as int, f);
                }
                proof {
                    lemma_map_of_remove(e0, i as int, |v: V| v);
                }
            },
            None => {
                assert forall|f: spec_fn(V) -> W|
                    #[trigger] map_of(entries@, f) == map_of(e0, f).remove(key@) by {
                    lemma_map_of_lookup(e0, f);
                    assert(map_of(e0, f).remove(key@) =~= map_of(e0, f));
                }
            },
        }
    }
}

/// A state rebuilt by `from_parts` from the lists that `history_entries` and
/// `legacy_entries` hand out equals the state they came from: same
/// directories, same ordered lists.
pub proof fn lemma_parts_round_trip(s: PersistedState)
    ensures
        parts_model(s.history_seq(), s.legacy_seq()) == s@,
{
}

/// Migration is idempotent: a second run changes nothing.
pub proof fn lemma_migrate_idempotent(m: StateModel)
    ensures
        migrated(migrated(m)) == migrated(m),
        migrated(m).last_test is None,
{
}

/// Without a legacy entry migration leaves the history as it is.
pub proof fn lemma_migrate_without_legacy_is_noop(m: StateModel)
    requires
        m.last_test is None || m.last_test == Some(Map::<Seq<char>, Seq<char>>::empty()),
    ensures
        migrated(m).test_history == m.test_history,
        migrated(m).last_test is None,
{
}

/// A legacy cache that maps `d` to `t`, with no history, migrates to the
/// history `[t]` for `d` and no legacy entries; migrating twice gives the
/// same state.
pub proof fn lemma_migrate_legacy_entry(m: StateModel, d: Seq<char>, t: Seq<char>)
    requires
        m.last_test == Some(Map::<Seq<char>, Seq<char>>::empty().insert(d, t)),
        history_or_empty(m) == Map::<Seq<char>, Seq<Seq<char>>>::empty(),
    ensures
        history_of(migrated(m), d) == Some(seq![t]),
        migrated(m).last_test is None,
        migrated(migrated(m)) == migrated(m),
{
    assert(m.last_test->0.contains_key(d));
}

/// Appending `x1` then `x2` to the history of `d` leaves them at its end in
/// that order, nothing removed or merged; from no history, it is `[x1, x2]`.
pub proof fn lemma_append_keeps_order(m: StateModel, d: Seq<char>, x1: Seq<char>, x2: Seq<char>)
    ensures
        history_of(appended(appended(m, d, x1), d, x2), d) == Some(
            match history_of(m, d) {
                Some(p) => p,
                None => Seq::empty(),
            }.push(x1).push(x2),
        ),
        history_of(m, d) is None ==> history_of(appended(appended(m, d, x1), d, x2), d) == Some(
            seq![x1, x2],
        ),
{
    assert(Seq::<Seq<char>>::empty().push(x1).push(x2) =~= seq![x1, x2]);
}

/// Clearing the current directory `d` removes its entries from both maps
/// and leaves every other directory as it was.
pub proof fn lemma_clear_current_is_local(m: StateModel, d: Seq<char>, k: Seq<char>)
    ensures
        history_of(cleared(m, CacheClearOption::Current, d), d) is None,
        cleared(m, CacheClearOption::Current, d).last_test matches Some(l) ==> !l.contains_key(d),
        k != d ==> history_of(cleared(m, CacheClearOption::Current, d), k) == history_of(m, k),
        k != d ==> match (cleared(m, CacheClearOption::Current, d).last_test, m.last_test) {
            (Some(l1), Some(l0)) => l1.contains_key(k) == l0.contains_key(k) && l1[k] == l0[k],
            (None, None) => true,
            _ => false,
        },
{
}

/// Clearing everything gives the empty state, whatever was there.
pub proof fn lemma_clear_all_empties(m: StateModel, here: Seq<char>)
    ensures
        cleared(m, CacheClearOption::All, here) == (StateModel { test_history: None, last_test: None }),
{
}

} // verus!
