//! Per-source context prompts, the ignore-list, and the classifier's pure
//! request/response logic: prompt construction, permissive response parsing
//! and the deterministic local fallback. Network transport and file
//! persistence are the caller's steps.
use vstd::prelude::*;

use crate::json::{as_str_spec, get_spec, json_as_str, json_get, json_of, JsonValue};
use crate::models::{
    AnalysisView, Notification, NotificationAnalysis, NotificationView, UrgencyLevel,
};
use crate::textutil::{
    ellipsis_cap, ellipsis_spec, first_idx, last_idx, lemma_insert_to_multiset,
    lemma_lex_leq_trans, lemma_lex_total, lex_leq, lex_lt, sorted_lex_strings, str_eq,
    str_lex_lt, trim_spec, trim_str, views_of,
};

verus! {

/// The stored context for one source key.
#[derive(Debug)]
pub struct AppPromptConfig {
    pub context: String,
}

/// The value under `key`, reading the first matching entry.
pub open spec fn prompts_lookup(
    entries: Seq<(String, AppPromptConfig)>,
    key: Seq<char>,
) -> Option<Seq<char>>
    decreases entries.len(),
{
    if entries.len() == 0 {
        None
    } else if entries[0].0@ == key {
        Some(entries[0].1.context@)
    } else {
        prompts_lookup(entries.drop_first(), key)
    }
}

/// No source key occurs twice.
pub open spec fn prompt_keys_unique(entries: Seq<(String, AppPromptConfig)>) -> bool {
    forall|i: int, j: int|
        0 <= i < j < entries.len() ==> entries[i].0@ != entries[j].0@
}

/// Setting a key: the first entry holding it keeps its place with the new
/// context; a fresh key is appended.
pub open spec fn prompts_set_spec(
    entries: Seq<(String, AppPromptConfig)>,
    key: String,
    context: String,
) -> Seq<(String, AppPromptConfig)>
    decreases entries.len(),
{
    if entries.len() == 0 {
        seq![(key, AppPromptConfig { context })]
    } else if entries[0].0@ == key@ {
        seq![(entries[0].0, AppPromptConfig { context })] + entries.drop_first()
    } else {
        seq![entries[0]] + prompts_set_spec(entries.drop_first(), key, context)
    }
}

/// Removing a key drops the first entry holding it.
pub open spec fn prompts_remove_spec(
    entries: Seq<(String, AppPromptConfig)>,
    key: Seq<char>,
) -> Seq<(String, AppPromptConfig)>
    decreases entries.len(),
{
    if entries.len() == 0 {
        entries
    } else if entries[0].0@ == key {
        entries.drop_first()
    } else {
        seq![entries[0]] + prompts_remove_spec(entries.drop_first(), key)
    }
}

/// The per-source context prompts, keyed by source key.
#[derive(Debug)]
pub struct AppPrompts {
    map: Vec<(String, AppPromptConfig)>,
    path: String,
}

impl AppPrompts {
    /// The entries held, in storage order.
    pub closed spec fn entries_spec(&self) -> Seq<(String, AppPromptConfig)> {
        self.map@
    }

    /// The path the entries are persisted at.
    pub closed spec fn path_spec(&self) -> Seq<char> {
        self.path@
    }

    pub open spec fn wf(&self) -> bool {
        prompt_keys_unique(self.entries_spec())
    }

    pub open spec fn lookup(&self, key: Seq<char>) -> Option<Seq<char>> {
        prompts_lookup(self.entries_spec(), key)
    }

    /// An empty set of prompts to be persisted at `path`.
    pub fn new(path: String) -> (r: AppPrompts)
        ensures
            r.wf(),
            r.entries_spec() =~= Seq::<(String, AppPromptConfig)>::empty(),
            r.path_spec() == path@,
    {
        AppPrompts { map: Vec::new(), path }
    }

    /// Where the entries are persisted.
    pub fn path(&self) -> (r: &String)
        ensures
            r@ == self.path_spec(),
    {
        &self.path
    }

    /// The context stored for `bundle_id`, if any.
    pub fn get(&self, bundle_id: &str) -> (r: Option<&str>)
        ensures
            match r {
                Some(s) => self.lookup(bundle_id@) == Some(s@),
                None => self.lookup(bundle_id@) is None,
            },
    {
        let n = self.map.len();
        let mut i: usize = 0;
        proof {
            assert(self.map@.skip(0) =~= self.map@);
        }
        while i < n
            invariant
                0 <= i <= n,
                n == self.map@.len(),
                self.lookup(bundle_id@) == prompts_lookup(self.map@, bundle_id@),
                prompts_lookup(self.map@, bundle_id@) == prompts_lookup(
                    self.map@.skip(i as int),
                    bundle_id@,
                ),
            decreases n - i,
        {
            let pair = &self.map[i];
            proof {
                assert(self.map@.skip(i as int)[0] == self.map@[i as int]);
                assert(self.map@.skip(i as int).drop_first() =~= self.map@.skip(i + 1));
            }
            if str_eq(pair.0.as_str(), bundle_id) {
                return Some(pair.1.context.as_str());
            }
            i = i + 1;
        }
        proof {
            assert(self.map@.skip(n as int) =~= Seq::<(String, AppPromptConfig)>::empty());
        }
        None
    }

    /// All entries as key/context pairs, in storage order.
    pub fn list(&self) -> (r: Vec<(String, String)>)
        ensures
            r@.len() == self.entries_spec().len(),
            forall|i: int|
                0 <= i < r@.len() ==> r@[i].0@ == self.entries_spec()[i].0@ && r@[i].1@
                    == self.entries_spec()[i].1.context@,
    {
        let n = self.map.len();
        let mut out: Vec<(String, String)> = Vec::new();
        let mut i: usize = 0;
        while i < n
            invariant
                0 <= i <= n,
                n == self.map@.len(),
                out@.len() == i,
                forall|j: int|
                    0 <= j < i ==> out@[j].0@ == self.map@[j].0@ && out@[j].1@
                        == self.map@[j].1.context@,
            decreases n - i,
        {
            let pair = &self.map[i];
            out.push((pair.0.clone(), pair.1.context.clone()));
            i = i + 1;
        }
        out
    }

    /// Store `context` under `bundle_id`, replacing any earlier context.
    pub fn set(&mut self, bundle_id: String, context: String)
        ensures
            final(self).entries_spec() == prompts_set_spec(
                old(self).entries_spec(),
                bundle_id,
                context,
            ),
            final(self).path_spec() == old(self).path_spec(),
            old(self).wf() ==> final(self).wf(),
    {
        let ghost entries = old(self).entries_spec();
        let n = self.map.len();
        let mut i: usize = 0;
        while i < n
            invariant
                entries == old(self).entries_spec(),
                0 <= i <= n,
                n == entries.len(),
                self.map@ == entries,
                self.path@ == old(self).path_spec(),
                forall|j: int| 0 <= j < i ==> entries[j].0@ != bundle_id@,
            decreases n - i,
        {
            let matched = str_eq(self.map[i].0.as_str(), bundle_id.as_str());
            if matched {
                let ghost key = bundle_id;
                let ghost ctx = context;
                let old_pair = self.map.remove(i);
                proof {
                    assert(old_pair == entries[i as int]);
                }
                let new_pair = (old_pair.0, AppPromptConfig { context });
                proof {
                    assert(new_pair == (entries[i as int].0, AppPromptConfig { context: ctx }));
                    lemma_prompts_set_at(entries, key, ctx, i as int);
                    vstd::seq_lib::lemma_update_is_remove_insert(entries, i as int, new_pair);
                }
                self.map.insert(i, new_pair);
                proof {
                    assert(self.map@ == entries.update(i as int, new_pair));
                    if old(self).wf() {
                        assert forall|x: int, y: int|
                            0 <= x < y < self.map@.len() implies self.map@[x].0@
                            != self.map@[y].0@ by {
                            assert(entries.update(i as int, new_pair)[x].0@ == entries[x].0@);
                            assert(entries.update(i as int, new_pair)[y].0@ == entries[y].0@);
                        }
                    }
                }
                return ;
            }
            i = i + 1;
        }
        let ghost key = bundle_id;
        let ghost ctx = context;
        self.map.push((bundle_id, AppPromptConfig { context }));
        proof {
            lemma_prompts_set_missing(entries, key, ctx);
            assert(self.map@ == entries.push((key, AppPromptConfig { context: ctx })));
            if old(self).wf() {
                assert forall|x: int, y: int|
                    0 <= x < y < self.map@.len() implies self.map@[x].0@ != self.map@[y].0@ by {
                    assert(self.map@[x].0@ == entries[x].0@);
                    if y < entries.len() {
                        assert(self.map@[y].0@ == entries[y].0@);
                    }
                }
            }
        }
    }

    /// Drop the entry under `bundle_id`; reports whether one was there.
    pub fn remove(&mut self, bundle_id: &str) -> (r: bool)
        ensures
            final(self).entries_spec() == prompts_remove_spec(old(self).entries_spec(), bundle_id@),
            final(self).path_spec() == old(self).path_spec(),
            r == (old(self).lookup(bundle_id@) is Some),
            old(self).wf() ==> final(self).wf(),
    {
        let ghost entries = old(self).entries_spec();
        let n = self.map.len();
        let mut i: usize = 0;
        while i < n
            invariant
                entries == old(self).entries_spec(),
                0 <= i <= n,
                n == entries.len(),
                self.map@ == entries,
                self.path@ == old(self).path_spec(),
                forall|j: int| 0 <= j < i ==> entries[j].0@ != bundle_id@,
            decreases n - i,
        {
            let matched = str_eq(self.map[i].0.as_str(), bundle_id);
            if matched {
                self.map.remove(i);
                proof {
                    lemma_prompts_remove_at(entries, bundle_id@, i as int);
                    lemma_prompts_lookup_at(entries, bundle_id@, i as int);
                    entries.remove_ensures(i as int);
                    assert(self.map@ == entries.remove(i as int));
                    if old(self).wf() {
                        assert forall|x: int, y: int|
                            0 <= x < y < self.map@.len() implies self.map@[x].0@
                            != self.map@[y].0@ by {
                            let ox: int = if x < i { x } else { x + 1 };
                            let oy: int = if y < i { y } else { y + 1 };
                            assert(entries.remove(i as int)[x] == entries[ox]);
                            assert(entries.remove(i as int)[y] == entries[oy]);
                        }
                    }
                }
                return true;
            }
            i = i + 1;
        }
        proof {
            lemma_prompts_remove_missing(entries, bundle_id@);
            lemma_prompts_lookup_missing(entries, bundle_id@);
        }
        false
    }
}

/// When the first occurrence of the key stands at `i`, setting rewrites
/// exactly that entry.
proof fn lemma_prompts_set_at(
    entries: Seq<(String, AppPromptConfig)>,
    key: String,
    context: String,
    i: int,
)
    requires
        0 <= i < entries.len(),
        entries[i].0@ == key@,
        forall|j: int| 0 <= j < i ==> entries[j].0@ != key@,
    ensures
        prompts_set_spec(entries, key, context) == entries.update(
            i,
            (entries[i].0, AppPromptConfig { context }),
        ),
    decreases i,
{
    if i == 0 {
        assert(prompts_set_spec(entries, key, context) =~= entries.update(
            0,
            (entries[0].0, AppPromptConfig { context }),
        ));
    } else {
        lemma_prompts_set_at(entries.drop_first(), key, context, i - 1);
        assert(prompts_set_spec(entries, key, context) =~= entries.update(
            i,
            (entries[i].0, AppPromptConfig { context }),
        ));
    }
}

/// Setting a key no entry holds appends a fresh entry.
proof fn lemma_prompts_set_missing(
    entries: Seq<(String, AppPromptConfig)>,
    key: String,
    context: String,
)
    requires
        forall|j: int| 0 <= j < entries.len() ==> entries[j].0@ != key@,
    ensures
        prompts_set_spec(entries, key, context) == entries.push((key, AppPromptConfig { context })),
    decreases entries.len(),
{
    if entries.len() == 0 {
        assert(prompts_set_spec(entries, key, context) =~= entries.push(
            (key, AppPromptConfig { context }),
        ));
    } else {
        lemma_prompts_set_missing(entries.drop_first(), key, context);
        assert(prompts_set_spec(entries, key, context) =~= entries.push(
            (key, AppPromptConfig { context }),
        ));
    }
}

/// When the first occurrence of the key stands at `i`, removal drops exactly
/// that entry.
proof fn lemma_prompts_remove_at(entries: Seq<(String, AppPromptConfig)>, key: Seq<char>, i: int)
    requires
        0 <= i < entries.len(),
        entries[i].0@ == key,
        forall|j: int| 0 <= j < i ==> entries[j].0@ != key,
    ensures
        prompts_remove_spec(entries, key) == entries.remove(i),
    decreases i,
{
    if i == 0 {
        assert(prompts_remove_spec(entries, key) =~= entries.remove(0));
    } else {
        lemma_prompts_remove_at(entries.drop_first(), key, i - 1);
        assert(prompts_remove_spec(entries, key) =~= entries.remove(i));
    }
}

proof fn lemma_prompts_remove_missing(entries: Seq<(String, AppPromptConfig)>, key: Seq<char>)
    requires
        forall|j: int| 0 <= j < entries.len() ==> entries[j].0@ != key,
    ensures
        prompts_remove_spec(entries, key) == entries,
    decreases entries.len(),
{
    if entries.len() > 0 {
        lemma_prompts_remove_missing(entries.drop_first(), key);
        assert(prompts_remove_spec(entries, key) =~= entries);
    }
}

/// A key first held at `i` is found by lookup.
proof fn lemma_prompts_lookup_at(entries: Seq<(String, AppPromptConfig)>, key: Seq<char>, i: int)
    requires
        0 <= i < entries.len(),
        entries[i].0@ == key,
    ensures
        prompts_lookup(entries, key) is Some,
    decreases i,
{
    if i > 0 && entries[0].0@ != key {
        lemma_prompts_lookup_at(entries.drop_first(), key, i - 1);
    }
}

proof fn lemma_prompts_lookup_missing(entries: Seq<(String, AppPromptConfig)>, key: Seq<char>)
    requires
        forall|j: int| 0 <= j < entries.len() ==> entries[j].0@ != key,
    ensures
        prompts_lookup(entries, key) is None,
    decreases entries.len(),
{
    if entries.len() > 0 {
        lemma_prompts_lookup_missing(entries.drop_first(), key);
    }
}

/// Whether some string of `s` reads `key`.
pub open spec fn contains_str(s: Seq<String>, key: Seq<char>) -> bool {
    exists|i: int| 0 <= i < s.len() && s[i]@ == key
}

/// The source keys whose notifications are never classified or stored.
#[derive(Debug)]
pub struct IgnoredApps {
    set: Vec<String>,
    path: String,
}

impl IgnoredApps {
    /// The keys held, in storage order.
    pub closed spec fn set_spec(&self) -> Seq<String> {
        self.set@
    }

    /// The path the keys are persisted at.
    pub closed spec fn path_spec(&self) -> Seq<char> {
        self.path@
    }

    /// No key occurs twice.
    pub open spec fn wf(&self) -> bool {
        forall|i: int, j: int|
            0 <= i < j < self.set_spec().len() ==> self.set_spec()[i]@ != self.set_spec()[j]@
    }

    /// An empty ignore-list to be persisted at `path`.
    pub fn new(path: String) -> (r: IgnoredApps)
        ensures
            r.wf(),
            r.set_spec() =~= Seq::<String>::empty(),
            r.path_spec() == path@,
    {
        IgnoredApps { set: Vec::new(), path }
    }

    /// Where the keys are persisted.
    pub fn path(&self) -> (r: &String)
        ensures
            r@ == self.path_spec(),
    {
        &self.path
    }

    /// Whether `bundle_id` is ignored.
    pub fn contains(&self, bundle_id: &str) -> (r: bool)
        ensures
            r == contains_str(self.set_spec(), bundle_id@),
    {
        let n = self.set.len();
        let mut i: usize = 0;
        while i < n
            invariant
                0 <= i <= n,
                n == self.set@.len(),
                forall|j: int| 0 <= j < i ==> self.set@[j]@ != bundle_id@,
                contains_str(self.set_spec(), bundle_id@) == contains_str(self.set@, bundle_id@),
            decreases n - i,
        {
            if str_eq(self.set[i].as_str(), bundle_id) {
                return true;
            }
            i = i + 1;
        }
        false
    }

    /// The ignored keys, sorted ascending.
    pub fn list(&self) -> (r: Vec<String>)
        ensures
            sorted_lex_strings(r@),
            views_of(r@).to_multiset() == views_of(self.set_spec()).to_multiset(),
    {
        let n = self.set.len();
        let mut out: Vec<String> = Vec::new();
        let mut i: usize = 0;
        proof {
            assert(views_of(self.set@.take(0)) =~= Seq::<Seq<char>>::empty());
            assert(views_of(out@) =~= Seq::<Seq<char>>::empty());
        }
        while i < n
            invariant
                0 <= i <= n,
                n == self.set@.len(),
                sorted_lex_strings(out@),
                views_of(out@).to_multiset() == views_of(self.set@.take(i as int)).to_multiset(),
            decreases n - i,
        {
            let s = self.set[i].clone();
            let m = out.len();
            let mut p: usize = 0;
            while p < m && str_lex_lt(out[p].as_str(), s.as_str())
                invariant
                    0 <= p <= m,
                    m == out@.len(),
                    s@ == self.set@[i as int]@,
                    forall|q: int| 0 <= q < p ==> lex_lt(out@[q]@, s@),
                decreases m - p,
            {
                p = p + 1;
            }
            proof {
                if p < m {
                    lemma_lex_total(out@[p as int]@, s@);
                }
            }
            let ghost old_out = out@;
            let ghost se = s;
            let ghost sv = s@;
            out.insert(p, s);
            proof {
                assert(out@ == old_out.insert(p as int, se));
                crate::textutil::lemma_insert_index(old_out, p as int, se);
                assert(out@[p as int]@ == sv);
                assert forall|q1: int, q2: int|
                    0 <= q1 < q2 < out@.len() implies lex_leq(out@[q1]@, out@[q2]@) by {
                    if q1 < p && q2 == p {
                        assert(old_out.insert(p as int, se)[q1] == old_out[q1]);
                        assert(lex_lt(old_out[q1]@, sv));
                    } else if q1 == p && q2 > p {
                        // the displaced element is not below the inserted one
                        assert(old_out.insert(p as int, se)[q2] == old_out[q2 - 1]);
                        assert(lex_leq(sv, old_out[p as int]@));
                        if q2 - 1 > p {
                            assert(lex_leq(old_out[p as int]@, old_out[q2 - 1]@));
                            lemma_lex_leq_trans(sv, old_out[p as int]@, old_out[q2 - 1]@);
                        }
                    } else if q1 < p && q2 > p {
                        assert(old_out.insert(p as int, se)[q1] == old_out[q1]);
                        assert(old_out.insert(p as int, se)[q2] == old_out[q2 - 1]);
                    } else if q2 < p {
                        assert(old_out.insert(p as int, se)[q1] == old_out[q1]);
                        assert(old_out.insert(p as int, se)[q2] == old_out[q2]);
                    } else if q1 > p {
                        assert(old_out.insert(p as int, se)[q1] == old_out[q1 - 1]);
                        assert(old_out.insert(p as int, se)[q2] == old_out[q2 - 1]);
                    }
                }
                crate::textutil::lemma_views_insert(old_out, p as int, se);
                lemma_insert_to_multiset(views_of(old_out), p as int, sv);
                assert(self.set@.take(i + 1) =~= self.set@.take(i as int).push(
                    self.set@[i as int],
                ));
                assert(views_of(self.set@.take(i + 1)) =~= views_of(
                    self.set@.take(i as int),
                ).push(self.set@[i as int]@));
                broadcast use vstd::seq_lib::group_to_multiset_ensures;

                assert(views_of(out@).to_multiset() =~= views_of(
                    self.set@.take(i + 1),
                ).to_multiset());
            }
            i = i + 1;
        }
        proof {
            assert(self.set@.take(n as int) =~= self.set@);
        }
        out
    }

    /// Add `bundle_id` to the ignored keys; present keys stay single.
    pub fn add(&mut self, bundle_id: String)
        ensures
            final(self).set_spec() == if contains_str(old(self).set_spec(), bundle_id@) {
                old(self).set_spec()
            } else {
                old(self).set_spec().push(bundle_id)
            },
            final(self).path_spec() == old(self).path_spec(),
            old(self).wf() ==> final(self).wf(),
    {
        if !self.contains(bundle_id.as_str()) {
            self.set.push(bundle_id);
        }
    }

    /// Drop `bundle_id` from the ignored keys; reports whether it was there.
    pub fn remove(&mut self, bundle_id: &str) -> (r: bool)
        ensures
            r == contains_str(old(self).set_spec(), bundle_id@),
            !contains_str(final(self).set_spec(), bundle_id@) || !old(self).wf(),
            views_of(final(self).set_spec()) == if old(self).lookup_idx(bundle_id@) is Some {
                views_of(old(self).set_spec()).remove(old(self).lookup_idx(bundle_id@)->Some_0)
            } else {
                views_of(old(self).set_spec())
            },
            final(self).path_spec() == old(self).path_spec(),
            old(self).wf() ==> final(self).wf(),
    {
        let ghost entries = old(self).set_spec();
        let n = self.set.len();
        let mut i: usize = 0;
        while i < n
            invariant
                entries == old(self).set_spec(),
                0 <= i <= n,
                n == entries.len(),
                self.set@ == entries,
                self.path@ == old(self).path_spec(),
                forall|j: int| 0 <= j < i ==> entries[j]@ != bundle_id@,
            decreases n - i,
        {
            if str_eq(self.set[i].as_str(), bundle_id) {
                self.set.remove(i);
                proof {
                    assert(entries[i as int]@ == bundle_id@);
                    assert(contains_str(entries, bundle_id@));
                    lemma_lookup_idx_at(entries, bundle_id@, i as int);
                    entries.remove_ensures(i as int);
                    crate::textutil::lemma_views_remove(entries, i as int);
                    assert(self.set@ == entries.remove(i as int));
                    if old(self).wf() {
                        if contains_str(self.set@, bundle_id@) {
                            let w = choose|w: int|
                                0 <= w < self.set@.len() && self.set@[w]@ == bundle_id@;
                            if w < i {
                                assert(entries.remove(i as int)[w] == entries[w]);
                            } else {
                                assert(entries.remove(i as int)[w] == entries[w + 1]);
                            }
                        }
                        assert forall|x: int, y: int|
                            0 <= x < y < self.set@.len() implies self.set@[x]@
                            != self.set@[y]@ by {
                            let ox: int = if x < i { x } else { x + 1 };
                            let oy: int = if y < i { y } else { y + 1 };
                            assert(entries.remove(i as int)[x] == entries[ox]);
                            assert(entries.remove(i as int)[y] == entries[oy]);
                        }
                    }
                }
                return true;
            }
            i = i + 1;
        }
        proof {
            if old(self).lookup_idx(bundle_id@) is Some {
                lemma_lookup_idx_bounds(entries, bundle_id@);
            }
        }
        false
    }

    /// The position of the first string reading `key`, if any.
    pub open spec fn lookup_idx(&self, key: Seq<char>) -> Option<int> {
        first_str_idx(self.set_spec(), key)
    }
}

/// The position of the first string of `s` reading `key`.
pub open spec fn first_str_idx(s: Seq<String>, key: Seq<char>) -> Option<int>
    decreases s.len(),
{
    if s.len() == 0 {
        None
    } else if s[0]@ == key {
        Some(0)
    } else {
        crate::textutil::shift_opt(first_str_idx(s.drop_first(), key), 1)
    }
}

proof fn lemma_lookup_idx_at(s: Seq<String>, key: Seq<char>, i: int)
    requires
        0 <= i < s.len(),
        s[i]@ == key,
        forall|j: int| 0 <= j < i ==> s[j]@ != key,
    ensures
        first_str_idx(s, key) == Some(i),
    decreases i,
{
    if i > 0 {
        lemma_lookup_idx_at(s.drop_first(), key, i - 1);
    }
}

proof fn lemma_lookup_idx_bounds(s: Seq<String>, key: Seq<char>)
    ensures
        match first_str_idx(s, key) {
            Some(i) => 0 <= i < s.len() && s[i]@ == key,
            None => forall|j: int| 0 <= j < s.len() ==> s[j]@ != key,
        },
    decreases s.len(),
{
    if s.len() > 0 && s[0]@ != key {
        lemma_lookup_idx_bounds(s.drop_first(), key);
        match first_str_idx(s.drop_first(), key) {
            Some(i) => {
                assert(s[i + 1] == s.drop_first()[i]);
            },
            None => {
                assert forall|j: int| 0 <= j < s.len() implies s[j]@ != key by {
                    if j > 0 {
                        assert(s[j] == s.drop_first()[j - 1]);
                    }
                }
            },
        }
    }
}


/// The deterministic summary used when the classifier gives none: the first
/// of title, body and subtitle that is non-blank, trimmed, capped at sixty
/// characters — or a fixed marker when all three are blank.
pub open spec fn default_summary_spec(n: NotificationView) -> Seq<char> {
    ellipsis_spec(
        if trim_spec(n.title).len() > 0 {
            trim_spec(n.title)
        } else if trim_spec(n.body).len() > 0 {
            trim_spec(n.body)
        } else if trim_spec(n.subtitle).len() > 0 {
            trim_spec(n.subtitle)
        } else {
            "内容不明の通知"@
        },
    )
}

pub fn default_summary_line(notification: &Notification) -> (r: String)
    ensures
        r@ == default_summary_spec(notification@),
{
    let title = trim_str(notification.title.as_str());
    if !title.as_str().is_empty() {
        return ellipsis_cap(title.as_str());
    }
    let body = trim_str(notification.body.as_str());
    if !body.as_str().is_empty() {
        return ellipsis_cap(body.as_str());
    }
    let subtitle = trim_str(notification.subtitle.as_str());
    if !subtitle.as_str().is_empty() {
        return ellipsis_cap(subtitle.as_str());
    }
    ellipsis_cap("内容不明の通知")
}

/// The default summary is never empty.
pub proof fn lemma_default_summary_nonempty(n: NotificationView)
    ensures
        default_summary_spec(n).len() > 0,
{
    reveal_strlit("内容不明の通知");
}

/// What the local fallback produces: tier Medium, the default summary, and a
/// fixed reason line.
pub open spec fn fallback_spec(n: NotificationView) -> AnalysisView {
    AnalysisView {
        urgency: UrgencyLevel::Medium,
        summary_line: default_summary_spec(n),
        reason: "LLM分析に失敗したため、ローカル規則で中優先として扱いました。"@,
    }
}

pub fn fallback_analysis(notification: &Notification) -> (r: NotificationAnalysis)
    ensures
        r@ == fallback_spec(notification@),
{
    NotificationAnalysis {
        urgency: UrgencyLevel::Medium,
        summary_line: default_summary_line(notification),
        reason: String::from_str("LLM分析に失敗したため、ローカル規則で中優先として扱いました。"),
    }
}

/// The instruction sent to the classifier for one record, with the urgency
/// taxonomy, the reply schema, the record's fields and any per-source context.
pub open spec fn prompt_spec(n: NotificationView, ctx: Option<Seq<char>>) -> Seq<char> {
    let base = "以下の通知を分析してください。\nJSONのみで回答し、追加説明は不要です。\n\n緊急度の判定基準（遅延コストで判断）:\n- critical: 今すぐ対応しないと実害が出る。分単位で損害が拡大する（例: 本番障害、セキュリティインシデント、家族からの緊急連絡）\n- high: 集中終了後すぐ見るべき。数時間放置すると困る（例: 上司からの直接メンション、今日締切のリマインダー、承認待ちのブロッカー）\n- medium: 後で確認すれば十分。半日〜1日遅れても問題ない（例: PRレビュー依頼、一般的なチャット、ミーティング通知）\n- low: 見なくてもほぼ困らない。無視しても実害なし（例: マーケティング通知、SNSのいいね、アプリ更新案内）\n\nスキーマ:\n{\n  \"summary_line\": \"30文字以内の要約\",\n  \"reason\": \"判定理由を1文\",\n  \"urgency_level\": \"critical|high|medium|low\"\n}\n\n通知:\nアプリ: "@
        + n.bundle_id + "\nタイトル: "@ + n.title + "\nサブタイトル: "@ + n.subtitle + "\n本文: "@
        + n.body;
    match ctx {
        Some(c) => base + "\n\nこのアプリに関する追加コンテキスト: "@ + c,
        None => base,
    }
}

pub fn build_analysis_prompt(notification: &Notification, app_context: Option<&str>) -> (r:
    String)
    ensures
        r@ == prompt_spec(
            notification@,
            match app_context {
                Some(c) => Some(c@),
                None => None,
            },
        ),
{
    let mut p = String::new();
    p.append("以下の通知を分析してください。\nJSONのみで回答し、追加説明は不要です。\n\n緊急度の判定基準（遅延コストで判断）:\n- critical: 今すぐ対応しないと実害が出る。分単位で損害が拡大する（例: 本番障害、セキュリティインシデント、家族からの緊急連絡）\n- high: 集中終了後すぐ見るべき。数時間放置すると困る（例: 上司からの直接メンション、今日締切のリマインダー、承認待ちのブロッカー）\n- medium: 後で確認すれば十分。半日〜1日遅れても問題ない（例: PRレビュー依頼、一般的なチャット、ミーティング通知）\n- low: 見なくてもほぼ困らない。無視しても実害なし（例: マーケティング通知、SNSのいいね、アプリ更新案内）\n\nスキーマ:\n{\n  \"summary_line\": \"30文字以内の要約\",\n  \"reason\": \"判定理由を1文\",\n  \"urgency_level\": \"critical|high|medium|low\"\n}\n\n通知:\nアプリ: ");
    p.append(notification.bundle_id.as_str());
    p.append("\nタイトル: ");
    p.append(notification.title.as_str());
    p.append("\nサブタイトル: ");
    p.append(notification.subtitle.as_str());
    p.append("\n本文: ");
    p.append(notification.body.as_str());
    match app_context {
        Some(ctx) => {
            p.append("\n\nこのアプリに関する追加コンテキスト: ");
            p.append(ctx);
            proof {
                assert(p@ =~= prompt_spec(notification@, Some(ctx@)));
            }
            p
        },
        None => {
            proof {
                assert(p@ =~= prompt_spec(notification@, None::<Seq<char>>));
            }
            p
        },
    }
}

/// The tier named by the classifier's `urgency_level` keyword.
pub open spec fn urgency_of_str(s: Seq<char>) -> Option<UrgencyLevel> {
    if s == "critical"@ {
        Some(UrgencyLevel::Critical)
    } else if s == "high"@ {
        Some(UrgencyLevel::High)
    } else if s == "medium"@ {
        Some(UrgencyLevel::Medium)
    } else if s == "low"@ {
        Some(UrgencyLevel::Low)
    } else {
        None
    }
}

fn urgency_from_keyword(s: &str) -> (r: Option<UrgencyLevel>)
    ensures
        r == urgency_of_str(s@),
{
    if str_eq(s, "critical") {
        Some(UrgencyLevel::Critical)
    } else if str_eq(s, "high") {
        Some(UrgencyLevel::High)
    } else if str_eq(s, "medium") {
        Some(UrgencyLevel::Medium)
    } else if str_eq(s, "low") {
        Some(UrgencyLevel::Low)
    } else {
        None
    }
}

/// A reply field: its trimmed string value when present, a string and
/// non-blank; otherwise the given fallback.
pub open spec fn reply_field_spec(doc: JsonValue, key: Seq<char>, fallback: Seq<char>) -> Seq<
    char,
> {
    match get_spec(doc, key) {
        Some(v) => match as_str_spec(v) {
            Some(s) => if trim_spec(s).len() > 0 {
                trim_spec(s)
            } else {
                fallback
            },
            None => fallback,
        },
        None => fallback,
    }
}

fn reply_field(doc: &JsonValue, key: &str, fallback: String) -> (r: String)
    ensures
        r@ == reply_field_spec(*doc, key@, fallback@),
{
    match json_get(doc, key) {
        Some(v) => match json_as_str(v) {
            Some(s) => {
                let t = trim_str(s.as_str());
                if !t.as_str().is_empty() {
                    t
                } else {
                    fallback
                }
            },
            None => fallback,
        },
        None => fallback,
    }
}

/// What the reply document yields: nothing unless `urgency_level` is one of
/// the four keywords; the summary and reason fields fall back locally.
pub open spec fn parse_doc_spec(doc: JsonValue, n: NotificationView) -> Option<AnalysisView> {
    match get_spec(doc, "urgency_level"@) {
        Some(u) => match as_str_spec(u) {
            Some(us) => match urgency_of_str(us) {
                Some(level) => Some(
                    AnalysisView {
                        urgency: level,
                        summary_line: reply_field_spec(
                            doc,
                            "summary_line"@,
                            default_summary_spec(n),
                        ),
                        reason: reply_field_spec(
                            doc,
                            "reason"@,
                            "判定理由は取得できませんでした。"@,
                        ),
                    },
                ),
                None => None,
            },
            None => None,
        },
        None => None,
    }
}

/// Permissive parsing of the classifier's reply: the slice from the first
/// `{` to the last `}` is read as JSON, shielding against surrounding prose;
/// anything else yields nothing.
pub open spec fn parse_analysis_spec(text: Seq<char>, n: NotificationView) -> Option<
    AnalysisView,
> {
    match (first_idx(text, '{'), last_idx(text, '}')) {
        (Some(s0), Some(e0)) => if e0 < s0 {
            None
        } else {
            match json_of(text.subrange(s0, e0 + 1)) {
                Some(doc) => parse_doc_spec(doc, n),
                None => None,
            }
        },
        _ => None,
    }
}

pub fn parse_analysis_response(text: &str, notification: &Notification) -> (r: Option<
    NotificationAnalysis,
>)
    ensures
        match r {
            Some(a) => parse_analysis_spec(text@, notification@) == Some(a@),
            None => parse_analysis_spec(text@, notification@) is None,
        },
{
    let start = match crate::textutil::find_char(text, '{') {
        Some(i) => i,
        None => {
            return None;
        },
    };
    let end = match crate::textutil::rfind_char(text, '}') {
        Some(i) => i,
        None => {
            return None;
        },
    };
    if end < start {
        return None;
    }
    let n = text.unicode_len();
    proof {
        crate::textutil::lemma_first_idx_bounds(text@, '{');
        crate::textutil::lemma_last_idx_bounds(text@, '}');
        assert(end < n);
    }
    let slice = text.substring_char(start, end + 1);
    let doc = match crate::json::parse_json(slice) {
        Some(d) => d,
        None => {
            return None;
        },
    };
    let urgency = match json_get(&doc, "urgency_level") {
        Some(v) => match json_as_str(v) {
            Some(us) => match urgency_from_keyword(us.as_str()) {
                Some(level) => level,
                None => {
                    return None;
                },
            },
            None => {
                return None;
            },
        },
        None => {
            return None;
        },
    };
    let summary_line = reply_field(&doc, "summary_line", default_summary_line(notification));
    let reason = reply_field(
        &doc,
        "reason",
        String::from_str("判定理由は取得できませんでした。"),
    );
    Some(NotificationAnalysis { urgency, summary_line, reason })
}

/// What the regex pass leaves of a reply text: a function of the text alone.
pub uninterp spec fn think_stripped(text: Seq<char>) -> Seq<char>;

/// Relies on regex::Regex::replace_all with the pattern
/// `<think>[\s\S]*?</think>`: each such block is deleted, the result depends
/// on the text alone, and text holding no `<` has no match and comes back
/// unchanged.
#[verifier::external_body]
fn strip_think_blocks(text: &str) -> (r: String)
    ensures
        r@ == think_stripped(text@),
        (forall|i: int| 0 <= i < text@.len() ==> text@[i] != '<') ==> r@ == text@,
{
    let re = regex::Regex::new(r"<think>[\s\S]*?</think>").expect("invalid regex");
    re.replace_all(text, "").into_owned()
}

/// Remove the model's thinking blocks from a reply and trim the rest.
pub fn strip_thinking_tags(text: &str) -> (r: String)
    ensures
        r@ == trim_spec(think_stripped(text@)),
{
    let stripped = strip_think_blocks(text);
    trim_str(stripped.as_str())
}

/// What the backend's reply body yields as generated text: the `response`
/// field (blank when absent or not a string), trimmed; a blank value or an
/// unreadable body yields nothing, and the thinking-block pass runs last.
pub open spec fn response_text_spec(body: Seq<char>) -> Option<Seq<char>> {
    match json_of(body) {
        Some(doc) => {
            let raw = match get_spec(doc, "response"@) {
                Some(v) => match as_str_spec(v) {
                    Some(s) => s,
                    None => Seq::<char>::empty(),
                },
                None => Seq::<char>::empty(),
            };
            if trim_spec(raw).len() == 0 {
                None
            } else {
                Some(trim_spec(think_stripped(trim_spec(raw))))
            }
        },
        None => None,
    }
}

/// Extract the generated text from the backend's raw reply body.
pub fn response_text_from_body(body: &str) -> (r: Option<String>)
    ensures
        match r {
            Some(t) => response_text_spec(body@) == Some(t@),
            None => response_text_spec(body@) is None,
        },
{
    let doc = match crate::json::parse_json(body) {
        Some(d) => d,
        None => {
            return None;
        },
    };
    let raw = match json_get(&doc, "response") {
        Some(v) => match json_as_str(v) {
            Some(s) => s.clone(),
            None => String::new(),
        },
        None => String::new(),
    };
    let trimmed = trim_str(raw.as_str());
    if trimmed.as_str().is_empty() {
        return None;
    }
    Some(strip_thinking_tags(trimmed.as_str()))
}


/// Whenever a reply parses, its summary line is non-empty.
pub proof fn lemma_parse_summary_nonempty(text: Seq<char>, n: NotificationView)
    ensures
        match parse_analysis_spec(text, n) {
            Some(a) => a.summary_line.len() > 0,
            None => true,
        },
{
    lemma_default_summary_nonempty(n);
}


/// One per-source context entry, as the presentation layer lists it.
#[derive(Debug)]
pub struct AppPromptEntry {
    pub bundle_id: String,
    pub context: String,
}

/// What the cloud backend's reply body yields as generated text: the text of
/// the first candidate's first part, trimmed; a blank value or an unreadable
/// body yields nothing.
pub open spec fn gemini_text_spec(body: Seq<char>) -> Option<Seq<char>> {
    match json_of(body) {
        Some(doc) => {
            let raw = gemini_pointer_spec(doc);
            if trim_spec(raw).len() == 0 {
                None
            } else {
                Some(trim_spec(raw))
            }
        },
        None => None,
    }
}

/// The string under `candidates[0].content.parts[0].text`, or empty.
pub open spec fn gemini_pointer_spec(doc: JsonValue) -> Seq<char> {
    match get_spec(doc, "candidates"@) {
        Some(cands) => match cands {
            JsonValue::Arr(items) => if items@.len() > 0 {
                match get_spec(items@[0], "content"@) {
                    Some(content) => match get_spec(content, "parts"@) {
                        Some(parts) => match parts {
                            JsonValue::Arr(ps) => if ps@.len() > 0 {
                                match get_spec(ps@[0], "text"@) {
                                    Some(v) => match as_str_spec(v) {
                                        Some(t) => t,
                                        None => Seq::<char>::empty(),
                                    },
                                    None => Seq::<char>::empty(),
                                }
                            } else {
                                Seq::<char>::empty()
                            },
                            _ => Seq::<char>::empty(),
                        },
                        None => Seq::<char>::empty(),
                    },
                    None => Seq::<char>::empty(),
                }
            } else {
                Seq::<char>::empty()
            },
            _ => Seq::<char>::empty(),
        },
        None => Seq::<char>::empty(),
    }
}

fn gemini_pointer(doc: &JsonValue) -> (r: String)
    ensures
        r@ == gemini_pointer_spec(*doc),
{
    match json_get(doc, "candidates") {
        Some(cands) => match cands {
            JsonValue::Arr(items) => {
                if items.len() > 0 {
                    match json_get(&items[0], "content") {
                        Some(content) => match json_get(content, "parts") {
                            Some(parts) => match parts {
                                JsonValue::Arr(ps) => {
                                    if ps.len() > 0 {
                                        match json_get(&ps[0], "text") {
                                            Some(v) => match json_as_str(v) {
                                                Some(t) => t.clone(),
                                                None => String::new(),
                                            },
                                            None => String::new(),
                                        }
                                    } else {
                                        String::new()
                                    }
                                },
                                _ => String::new(),
                            },
                            None => String::new(),
                        },
                        None => String::new(),
                    }
                } else {
                    String::new()
                }
            },
            _ => String::new(),
        },
        None => String::new(),
    }
}

/// Extract the generated text from the cloud backend's raw reply body.
pub fn gemini_text_from_body(body: &str) -> (r: Option<String>)
    ensures
        match r {
            Some(t) => gemini_text_spec(body@) == Some(t@),
            None => gemini_text_spec(body@) is None,
        },
{
    let doc = match crate::json::parse_json(body) {
        Some(d) => d,
        None => {
            return None;
        },
    };
    let raw = gemini_pointer(&doc);
    let trimmed = trim_str(raw.as_str());
    if trimmed.as_str().is_empty() {
        return None;
    }
    Some(trimmed)
}

} // verus!
