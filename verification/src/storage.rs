//! The rule store: persisted allow/deny pattern lists.
//!
//! `PermissionStorage` holds the in-memory image of the persisted rule set
//! and offers the load / append-if-absent / remove protocol over it. The
//! surrounding persistence (locating the settings resource, reading and
//! writing it) is a caller concern; every mutation here is a pure
//! load-modify-store step over the lists themselves.

use vstd::prelude::*;

verus! {

/// The persisted allow/deny rule lists, in insertion order.
pub struct PermissionRules {
    pub allow: Vec<String>,
    pub deny: Vec<String>,
}

/// The permission-rules sub-section of the broader settings resource.
pub struct PermissionSettings {
    pub permissions: PermissionRules,
}

/// No rule occurs twice within one list.
pub open spec fn distinct_rule_list(list: Seq<Seq<char>>) -> bool {
    forall|i: int, j: int| 0 <= i < j < list.len() ==> list[i] != list[j]
}

/// Appending a rule to a list, only if it is not already present.
pub open spec fn add_rule_spec(list: Seq<Seq<char>>, p: Seq<char>) -> Seq<Seq<char>> {
    if list.contains(p) {
        list
    } else {
        list.push(p)
    }
}

/// The first `i` entries of `list`, later duplicates dropped: each entry
/// keeps its first occurrence, in order.
pub open spec fn dedup_upto(list: Seq<Seq<char>>, i: nat) -> Seq<Seq<char>>
    decreases i,
{
    if i == 0 || i > list.len() {
        Seq::empty()
    } else {
        add_rule_spec(dedup_upto(list, (i - 1) as nat), list[i - 1])
    }
}

/// `list` with later duplicates dropped, first occurrences kept in order.
pub open spec fn dedup_spec(list: Seq<Seq<char>>) -> Seq<Seq<char>> {
    dedup_upto(list, list.len())
}

/// The first `i` entries of `list` with every occurrence of `p` dropped,
/// order otherwise kept.
pub open spec fn removed_upto(list: Seq<Seq<char>>, p: Seq<char>, i: nat) -> Seq<Seq<char>>
    decreases i,
{
    if i == 0 || i > list.len() {
        Seq::empty()
    } else {
        let prev = removed_upto(list, p, (i - 1) as nat);
        if list[i - 1] == p {
            prev
        } else {
            prev.push(list[i - 1])
        }
    }
}

/// `list` with every occurrence of `p` dropped, order otherwise kept.
pub open spec fn remove_rule_spec(list: Seq<Seq<char>>, p: Seq<char>) -> Seq<Seq<char>> {
    removed_upto(list, p, list.len())
}

/// How often `p` occurs in `list` at or after position `i`.
pub open spec fn count_rule_from(list: Seq<Seq<char>>, p: Seq<char>, i: nat) -> nat
    decreases list.len() - i,
{
    if i >= list.len() {
        0
    } else {
        (if list[i as int] == p {
            1nat
        } else {
            0nat
        }) + count_rule_from(list, p, i + 1)
    }
}

/// How often `p` occurs in `list`.
pub open spec fn count_rule(list: Seq<Seq<char>>, p: Seq<char>) -> nat {
    count_rule_from(list, p, 0)
}

proof fn lemma_count_zero_iff_absent(list: Seq<Seq<char>>, p: Seq<char>, i: nat)
    requires
        i <= list.len(),
    ensures
        (count_rule_from(list, p, i) == 0) <==> (forall|k: int|
            i <= k < list.len() ==> list[k] != p),
    decreases list.len() - i,
{
    if i < list.len() {
        lemma_count_zero_iff_absent(list, p, i + 1);
    }
}

proof fn lemma_distinct_count_at_most_one(list: Seq<Seq<char>>, p: Seq<char>, i: nat)
    requires
        i <= list.len(),
        distinct_rule_list(list),
    ensures
        count_rule_from(list, p, i) <= 1,
    decreases list.len() - i,
{
    if i < list.len() {
        lemma_distinct_count_at_most_one(list, p, i + 1);
        if list[i as int] == p {
            assert(forall|k: int| i + 1 <= k < list.len() ==> list[k] != p);
            lemma_count_zero_iff_absent(list, p, i + 1);
        }
    }
}

proof fn lemma_count_positive_if_contains(list: Seq<Seq<char>>, p: Seq<char>)
    requires
        list.contains(p),
    ensures
        count_rule(list, p) >= 1,
{
    lemma_count_zero_iff_absent(list, p, 0);
    let w = choose|k: int| 0 <= k < list.len() && list[k] == p;
    assert(list[w] == p);
}

/// Appending a rule that is absent keeps the list free of duplicates.
pub proof fn lemma_add_rule_keeps_distinct(list: Seq<Seq<char>>, p: Seq<char>)
    requires
        distinct_rule_list(list),
    ensures
        distinct_rule_list(add_rule_spec(list, p)),
{
    if !list.contains(p) {
        let r = list.push(p);
        assert forall|i: int, j: int| 0 <= i < j < r.len() implies r[i] != r[j] by {
            if j < list.len() {
            } else {
                assert(r[j] == p);
                assert(r[i] == list[i]);
                if list[i] == p {
                    assert(list.contains(p));
                }
            }
        }
    }
}

/// Adding a rule is idempotent: a second addition of the same rule changes
/// nothing, and the rule then stands in the list exactly once.
pub proof fn lemma_add_rule_idempotent(list: Seq<Seq<char>>, p: Seq<char>)
    requires
        distinct_rule_list(list),
    ensures
        add_rule_spec(add_rule_spec(list, p), p) == add_rule_spec(list, p),
        count_rule(add_rule_spec(list, p), p) == 1,
{
    let once = add_rule_spec(list, p);
    if list.contains(p) {
        lemma_count_positive_if_contains(list, p);
        lemma_distinct_count_at_most_one(list, p, 0);
    } else {
        assert(once == list.push(p));
        assert(once[list.len() as int] == p);
        assert(once.contains(p));
        lemma_add_rule_keeps_distinct(list, p);
        lemma_count_positive_if_contains(once, p);
        lemma_distinct_count_at_most_one(once, p, 0);
    }
}

proof fn lemma_removed_upto_props(list: Seq<Seq<char>>, p: Seq<char>, i: nat)
    requires
        i <= list.len(),
    ensures
        forall|j: int| 0 <= j < removed_upto(list, p, i).len() ==> removed_upto(list, p, i)[j] != p,
        forall|j: int|
            0 <= j < removed_upto(list, p, i).len() ==> exists|k: int|
                0 <= k < i && list[k] == #[trigger] removed_upto(list, p, i)[j],
        distinct_rule_list(list) ==> distinct_rule_list(removed_upto(list, p, i)),
    decreases i,
{
    if i > 0 {
        lemma_removed_upto_props(list, p, (i - 1) as nat);
        let prev = removed_upto(list, p, (i - 1) as nat);
        let cur = removed_upto(list, p, i);
        if list[i - 1] == p {
        } else {
            assert(cur == prev.push(list[i - 1]));
            assert forall|j: int| 0 <= j < cur.len() implies exists|k: int|
                0 <= k < i && list[k] == #[trigger] cur[j] by {
                if j < prev.len() {
                    assert(cur[j] == prev[j]);
                    let k0 = choose|k: int| 0 <= k < i - 1 && list[k] == prev[j];
                    assert(0 <= k0 < i && list[k0] == cur[j]);
                } else {
                    assert(cur[j] == list[i - 1]);
                    assert(0 <= i - 1 < i && list[i - 1] == cur[j]);
                }
            }
            if distinct_rule_list(list) {
                assert forall|a: int, b: int| 0 <= a < b < cur.len() implies cur[a] != cur[b] by {
                    if b < prev.len() {
                    } else {
                        assert(cur[b] == list[i - 1]);
                        assert(cur[a] == prev[a]);
                        let k0 = choose|k: int| 0 <= k < i - 1 && list[k] == prev[a];
                        assert(list[k0] == cur[a]);
                        assert(k0 < i - 1);
                    }
                }
            }
        }
    }
}

/// Removing a rule clears every occurrence of it from a list, keeps the
/// other entries in order, and keeps the list free of duplicates.
pub proof fn lemma_remove_rule_clears(list: Seq<Seq<char>>, p: Seq<char>)
    ensures
        !remove_rule_spec(list, p).contains(p),
        distinct_rule_list(list) ==> distinct_rule_list(remove_rule_spec(list, p)),
{
    lemma_removed_upto_props(list, p, list.len());
    let r = remove_rule_spec(list, p);
    if r.contains(p) {
        let j = choose|j: int| 0 <= j < r.len() && r[j] == p;
        assert(r[j] != p);
    }
}

/// Removing a rule clears it from both lists at once, wherever it stood.
pub proof fn lemma_remove_rule_clears_both(allow: Seq<Seq<char>>, deny: Seq<Seq<char>>, p: Seq<
    char,
>)
    ensures
        !remove_rule_spec(allow, p).contains(p),
        !remove_rule_spec(deny, p).contains(p),
{
    lemma_remove_rule_clears(allow, p);
    lemma_remove_rule_clears(deny, p);
}

/// Whether the list of rule strings holds `p`, compared character for
/// character.
fn vec_contains_string(v: &Vec<String>, p: &String) -> (r: bool)
    ensures
        r == v.deep_view().contains(p@),
{
    let n = v.len();
    let mut i: usize = 0;
    while i < n
        invariant
            i <= n,
            n == v.len(),
            forall|k: int| 0 <= k < i ==> v.deep_view()[k] != p@,
        decreases n - i,
    {
        if v[i].eq(p) {
            proof {
                assert(v.deep_view()[i as int] == p@);
            }
            return true;
        }
        proof {
            assert(v.deep_view()[i as int] == v@[i as int]@);
        }
        i = i + 1;
    }
    proof {
        if v.deep_view().contains(p@) {
            let k = choose|k: int| 0 <= k < v.deep_view().len() && v.deep_view()[k] == p@;
            assert(v.deep_view()[k] != p@);
        }
    }
    false
}

/// A copy of `v` with later duplicates dropped: each rule keeps its first
/// occurrence, in order.
fn dedup_list(v: &Vec<String>) -> (r: Vec<String>)
    ensures
        r.deep_view() == dedup_spec(v.deep_view()),
        distinct_rule_list(r.deep_view()),
{
    let n = v.len();
    let mut r: Vec<String> = Vec::new();
    let mut i: usize = 0;
    while i < n
        invariant
            i <= n,
            n == v.len(),
            r.deep_view() == dedup_upto(v.deep_view(), i as nat),
            distinct_rule_list(r.deep_view()),
        decreases n - i,
    {
        proof {
            assert(v.deep_view()[i as int] == v@[i as int]@);
            lemma_add_rule_keeps_distinct(r.deep_view(), v.deep_view()[i as int]);
        }
        if !vec_contains_string(&r, &v[i]) {
            let ghost before = r.deep_view();
            let s = v[i].clone();
            r.push(s);
            proof {
                assert(r.deep_view() =~= before.push(v.deep_view()[i as int]));
            }
        }
        i = i + 1;
    }
    r
}

/// A fresh copy of a list of rule strings, character for character equal.
fn clone_string_vec(v: &Vec<String>) -> (r: Vec<String>)
    ensures
        r.deep_view() == v.deep_view(),
{
    let n = v.len();
    let mut r: Vec<String> = Vec::new();
    let mut i: usize = 0;
    while i < n
        invariant
            i <= n,
            n == v.len(),
            r.len() == i,
            forall|k: int| 0 <= k < i ==> r.deep_view()[k] == v.deep_view()[k],
        decreases n - i,
    {
        let s = v[i].clone();
        r.push(s);
        i = i + 1;
    }
    proof {
        assert(r.deep_view() =~= v.deep_view());
    }
    r
}

/// The rule store. It owns the current image of the persisted allow/deny
/// lists; callers that persist the rules write this image back after every
/// mutation.
pub struct PermissionStorage {
    rules: PermissionRules,
}

impl PermissionStorage {
    /// The allow list, as sequences of characters.
    pub closed spec fn spec_allow(&self) -> Seq<Seq<char>> {
        self.rules.allow.deep_view()
    }

    /// The deny list, as sequences of characters.
    pub closed spec fn spec_deny(&self) -> Seq<Seq<char>> {
        self.rules.deny.deep_view()
    }

    /// The store invariant: neither list holds a rule twice.
    pub open spec fn wf(&self) -> bool {
        distinct_rule_list(self.spec_allow()) && distinct_rule_list(self.spec_deny())
    }

    /// An empty rule set: what loading yields when nothing was persisted.
    pub fn new() -> (s: Self)
        ensures
            s.spec_allow() == Seq::<Seq<char>>::empty(),
            s.spec_deny() == Seq::<Seq<char>>::empty(),
            s.wf(),
    {
        let s = PermissionStorage {
            rules: PermissionRules { allow: Vec::new(), deny: Vec::new() },
        };
        proof {
            assert(s.spec_allow() =~= Seq::<Seq<char>>::empty());
            assert(s.spec_deny() =~= Seq::<Seq<char>>::empty());
        }
        s
    }

    /// A rule set loaded from rules that a caller read out of the persisted
    /// resource. The store itself never persists a duplicate, but a
    /// hand-edited resource may hold one: later duplicates are dropped
    /// here, first occurrences kept in order, so that any loaded lists
    /// yield a well-formed store.
    pub fn from_rules(rules: PermissionRules) -> (s: Self)
        ensures
            s.spec_allow() == dedup_spec(rules.allow.deep_view()),
            s.spec_deny() == dedup_spec(rules.deny.deep_view()),
            s.wf(),
    {
        let allow = dedup_list(&rules.allow);
        let deny = dedup_list(&rules.deny);
        PermissionStorage { rules: PermissionRules { allow, deny } }
    }

    /// The allow list itself, for the crate's own read-only walks.
    pub(crate) fn allow_list(&self) -> (v: &Vec<String>)
        ensures
            v.deep_view() == self.spec_allow(),
    {
        &self.rules.allow
    }

    /// The deny list itself, for the crate's own read-only walks.
    pub(crate) fn deny_list(&self) -> (v: &Vec<String>)
        ensures
            v.deep_view() == self.spec_deny(),
    {
        &self.rules.deny
    }

    /// The current rule set. Never fails: an empty store simply yields two
    /// empty lists.
    pub fn load_permissions(&self) -> (r: Result<PermissionRules, String>)
        ensures
            r is Ok,
            r->Ok_0.allow.deep_view() == self.spec_allow(),
            r->Ok_0.deny.deep_view() == self.spec_deny(),
    {
        Ok(
            PermissionRules {
                allow: clone_string_vec(&self.rules.allow),
                deny: clone_string_vec(&self.rules.deny),
            },
        )
    }

    /// Append `pattern` to the allow list, unless it is already present.
    pub fn add_allow_rule(&mut self, pattern: String) -> (r: Result<(), String>)
        requires
            old(self).wf(),
        ensures
            r is Ok,
            final(self).spec_allow() == add_rule_spec(old(self).spec_allow(), pattern@),
            final(self).spec_deny() == old(self).spec_deny(),
            final(self).wf(),
    {
        proof {
            lemma_add_rule_keeps_distinct(self.spec_allow(), pattern@);
        }
        if !vec_contains_string(&self.rules.allow, &pattern) {
            let ghost old_allow = self.spec_allow();
            self.rules.allow.push(pattern);
            proof {
                assert(self.spec_allow() =~= old_allow.push(pattern@));
            }
        }
        Ok(())
    }

    /// Append `pattern` to the deny list, unless it is already present.
    pub fn add_deny_rule(&mut self, pattern: String) -> (r: Result<(), String>)
        requires
            old(self).wf(),
        ensures
            r is Ok,
            final(self).spec_deny() == add_rule_spec(old(self).spec_deny(), pattern@),
            final(self).spec_allow() == old(self).spec_allow(),
            final(self).wf(),
    {
        proof {
            lemma_add_rule_keeps_distinct(self.spec_deny(), pattern@);
        }
        if !vec_contains_string(&self.rules.deny, &pattern) {
            let ghost old_deny = self.spec_deny();
            self.rules.deny.push(pattern);
            proof {
                assert(self.spec_deny() =~= old_deny.push(pattern@));
            }
        }
        Ok(())
    }

    /// Remove `pattern` from both lists. Removing a rule that stands in
    /// neither list is not an error.
    pub fn remove_rule(&mut self, pattern: String) -> (r: Result<(), String>)
        requires
            old(self).wf(),
        ensures
            r is Ok,
            final(self).spec_allow() == remove_rule_spec(old(self).spec_allow(), pattern@),
            final(self).spec_deny() == remove_rule_spec(old(self).spec_deny(), pattern@),
            final(self).wf(),
    {
        let allow = remove_from_list(&self.rules.allow, &pattern);
        let deny = remove_from_list(&self.rules.deny, &pattern);
        proof {
            lemma_remove_rule_clears(self.spec_allow(), pattern@);
            lemma_remove_rule_clears(self.spec_deny(), pattern@);
        }
        self.rules = PermissionRules { allow, deny };
        Ok(())
    }
}

/// A copy of `v` with every entry equal to `p` dropped, order kept.
fn remove_from_list(v: &Vec<String>, p: &String) -> (r: Vec<String>)
    ensures
        r.deep_view() == remove_rule_spec(v.deep_view(), p@),
{
    let n = v.len();
    let mut r: Vec<String> = Vec::new();
    let mut i: usize = 0;
    while i < n
        invariant
            i <= n,
            n == v.len(),
            r.deep_view() == removed_upto(v.deep_view(), p@, i as nat),
        decreases n - i,
    {
        proof {
            assert(v.deep_view()[i as int] == v@[i as int]@);
        }
        if !v[i].eq(p) {
            let ghost before = r.deep_view();
            let s = v[i].clone();
            r.push(s);
            proof {
                assert(r.deep_view() =~= before.push(v.deep_view()[i as int]));
            }
        }
        i = i + 1;
    }
    r
}

} // verus!
