//! Resolution of row-selection rule lists. A literal rule always adds its
//! key. A conditional with `then` items adds them when its predicate (asked
//! once, without row context) is true; one without `then` items adds every
//! row whose predicate is true. A matching conditional stops the list
//! unless `continue` is set — but only when the list keeps rows: a list
//! that drops rows is an exhaustive blocklist and every rule of it counts.
//!
//! Predicates belong to the template dialect, so the resolver does not
//! evaluate them: it asks for each predicate's outcome as it first needs
//! it, and the caller answers, one outcome at a time. Rules standing after
//! a stop are never asked about.

use vstd::prelude::*;

use crate::config::{Include, IncludeExclude};
use crate::table::KeySet;

verus! {

broadcast use vstd::set::group_set_axioms;

/// The model of a rule: a literal key, or a conditional with its predicate
/// text, optional `then` items and its `continue` flag (defaulted to
/// `false`).
pub enum RuleModel {
    Lit(Seq<char>),
    Cond { cond: Seq<char>, items: Option<Seq<Seq<char>>>, cont: bool },
}

impl View for Include {
    type V = RuleModel;

    open spec fn view(&self) -> RuleModel {
        match self {
            Include::Element(k) => RuleModel::Lit(k@),
            Include::Conditional(c) => RuleModel::Cond {
                cond: c.condition@,
                items: match c.items {
                    Some(its) => Some(its@.map_values(|s: String| s@)),
                    None => None,
                },
                cont: match c.continue_ {
                    Some(b) => b,
                    None => false,
                },
            },
        }
    }
}

/// A predicate outcome the caller hands back: one answer for a `then`
/// conditional, one answer per table row for a row conditional.
pub enum PredOutcome {
    Once(bool),
    PerRow(Vec<bool>),
}

/// The model of a predicate outcome.
pub enum OutcomeModel {
    Once(bool),
    PerRow(Seq<bool>),
}

impl View for PredOutcome {
    type V = OutcomeModel;

    open spec fn view(&self) -> OutcomeModel {
        match self {
            PredOutcome::Once(b) => OutcomeModel::Once(*b),
            PredOutcome::PerRow(bs) => OutcomeModel::PerRow(bs@),
        }
    }
}

pub open spec fn spec_rules_view(rs: Seq<Include>) -> Seq<RuleModel> {
    rs.map_values(|r: Include| r@)
}

pub open spec fn spec_outs_view(os: Seq<PredOutcome>) -> Seq<OutcomeModel> {
    os.map_values(|o: PredOutcome| o@)
}

pub open spec fn spec_keys_view(ks: Seq<String>) -> Seq<Seq<char>> {
    ks.map_values(|s: String| s@)
}

/// Whether a matching rule ends the list: only a kept-rows list stops, and
/// only when the rule does not ask to continue.
pub open spec fn spec_stop(mode: IncludeExclude, matched: bool, cont: bool) -> bool {
    matched && mode is Include && !cont
}

/// The keys of the rows a per-row outcome marks.
pub open spec fn spec_row_matches(keys: Seq<Seq<char>>, bs: Seq<bool>) -> Set<Seq<char>> {
    Set::new(
        |k: Seq<char>| exists|r: int| 0 <= r < keys.len() && r < bs.len() && bs[r] && keys[r] == k,
    )
}

/// Where resolution stands: finished with a key set, in need of one more
/// predicate outcome for the rule at an index, or handed an outcome of the
/// wrong shape.
pub enum ResolveModel {
    Done(Set<Seq<char>>),
    NeedOnce(int),
    NeedPerRow(int),
    Mismatch,
}

/// One pass over the rules from rule `i` on, with outcomes from `oi` on and
/// the keys gathered so far in `acc`.
pub open spec fn spec_resolve_from(
    rules: Seq<RuleModel>,
    mode: IncludeExclude,
    keys: Seq<Seq<char>>,
    outs: Seq<OutcomeModel>,
    i: int,
    oi: int,
    acc: Set<Seq<char>>,
) -> ResolveModel
    decreases rules.len() - i,
{
    if i < 0 || i >= rules.len() {
        ResolveModel::Done(acc)
    } else {
        match rules[i] {
            RuleModel::Lit(k) => spec_resolve_from(
                rules,
                mode,
                keys,
                outs,
                i + 1,
                oi,
                acc.insert(k),
            ),
            RuleModel::Cond { cond, items, cont } => {
                if oi >= outs.len() || oi < 0 {
                    if items is Some {
                        ResolveModel::NeedOnce(i)
                    } else {
                        ResolveModel::NeedPerRow(i)
                    }
                } else {
                    match (items, outs[oi]) {
                        (Some(its), OutcomeModel::Once(b)) => {
                            let acc2 = if b {
                                acc.union(its.to_set())
                            } else {
                                acc
                            };
                            if spec_stop(mode, b, cont) {
                                ResolveModel::Done(acc2)
                            } else {
                                spec_resolve_from(rules, mode, keys, outs, i + 1, oi + 1, acc2)
                            }
                        },
                        (None, OutcomeModel::PerRow(bs)) => {
                            if bs.len() != keys.len() {
                                ResolveModel::Mismatch
                            } else {
                                let acc2 = acc.union(spec_row_matches(keys, bs));
                                let matched = exists|r: int| 0 <= r < bs.len() && bs[r];
                                if spec_stop(mode, matched, cont) {
                                    ResolveModel::Done(acc2)
                                } else {
                                    spec_resolve_from(rules, mode, keys, outs, i + 1, oi + 1, acc2)
                                }
                            }
                        },
                        _ => ResolveModel::Mismatch,
                    }
                }
            },
        }
    }
}

/// Resolution of a whole rule list.
pub open spec fn spec_resolve(
    rules: Seq<RuleModel>,
    mode: IncludeExclude,
    keys: Seq<Seq<char>>,
    outs: Seq<OutcomeModel>,
) -> ResolveModel {
    spec_resolve_from(rules, mode, keys, outs, 0, 0, Set::empty())
}

/// Adds every item of `items` to `acc`.
#[verifier::loop_isolation(false)]
fn extend_items(acc: &mut KeySet, items: &Vec<String>)
    requires
        old(acc).well_formed(),
    ensures
        final(acc).well_formed(),
        final(acc)@ == old(acc)@.union(items@.map_values(|s: String| s@).to_set()),
{
    let ghost its = items@.map_values(|s: String| s@);
    proof {
        assert(its.len() == items@.len());
    }
    let n = items.len();
    let mut j: usize = 0;
    while j < n
        invariant
            j <= n,
            n == items@.len(),
            acc.well_formed(),
            acc@ == old(acc)@.union(its.take(j as int).to_set()),
        decreases n - j,
    {
        let ghost pre = acc@;
        acc.insert(items[j].clone());
        j = j + 1;
        proof {
            let prev = its.take(j - 1);
            let cur = its.take(j as int);
            assert(prev.len() == j - 1 && cur.len() == j);
            assert(cur[j - 1] == its[j - 1]);
            assert forall|a: Seq<char>|
                cur.to_set().contains(a) == (prev.to_set().contains(a) || a == its[j - 1]) by {
                if cur.to_set().contains(a) {
                    let w = choose|w: int| 0 <= w < cur.len() && #[trigger] cur[w] == a;
                    if w < j - 1 {
                        assert(prev[w] == a);
                        assert(prev.to_set().contains(a));
                    } else {
                        assert(a == its[j - 1]);
                    }
                }
                if prev.to_set().contains(a) {
                    let w = choose|w: int| 0 <= w < prev.len() && #[trigger] prev[w] == a;
                    assert(cur[w] == a);
                    assert(cur.to_set().contains(a));
                }
                if a == its[j - 1] {
                    assert(cur[j - 1] == a);
                    assert(cur.to_set().contains(a));
                }
            }
            assert(its[j - 1] == items@[j - 1]@);
            assert(acc@ =~= old(acc)@.union(cur.to_set()));
        }
    }
    proof {
        assert(its.take(n as int) =~= its);
    }
}

/// Adds the key of every marked row to `acc`; reports whether any row was
/// marked.
#[verifier::loop_isolation(false)]
fn add_matching_rows(acc: &mut KeySet, keys: &Vec<String>, bs: &Vec<bool>) -> (any: bool)
    requires
        old(acc).well_formed(),
        keys@.len() == bs@.len(),
    ensures
        final(acc).well_formed(),
        final(acc)@ == old(acc)@.union(spec_row_matches(spec_keys_view(keys@), bs@)),
        any == exists|r: int| 0 <= r < bs@.len() && bs@[r],
{
    let ghost kv = spec_keys_view(keys@);
    proof {
        assert(kv.len() == keys@.len());
    }
    let n = keys.len();
    let mut r: usize = 0;
    let mut any = false;
    while r < n
        invariant
            r <= n,
            n == keys@.len() == bs@.len(),
            kv.len() == n,
            acc.well_formed(),
            acc@ == old(acc)@.union(spec_row_matches(kv.take(r as int), bs@.take(r as int))),
            any == exists|q: int| 0 <= q < r && bs@[q],
        decreases n - r,
    {
        let ghost ri = r as int;
        let ghost kp = kv.take(ri);
        let ghost bp = bs@.take(ri);
        let ghost kc = kv.take(ri + 1);
        let ghost bc = bs@.take(ri + 1);
        let ghost pre_set = spec_row_matches(kp, bp);
        let ghost post_set = spec_row_matches(kc, bc);
        proof {
            assert(kp.len() == ri && bp.len() == ri);
            assert(kc.len() == ri + 1 && bc.len() == ri + 1);
            assert(kc[ri] == kv[ri] && bc[ri] == bs@[ri]);
            assert forall|a: Seq<char>|
                post_set.contains(a) == (pre_set.contains(a) || (bs@[ri] && a == kv[ri])) by {
                if post_set.contains(a) {
                    let w = choose|w: int|
                        0 <= w < kc.len() && w < bc.len() && bc[w] && #[trigger] kc[w] == a;
                    if w < ri {
                        assert(bp[w] && kp[w] == a);
                        assert(pre_set.contains(a));
                    } else {
                        assert(bs@[ri] && a == kv[ri]);
                    }
                }
                if pre_set.contains(a) {
                    let w = choose|w: int|
                        0 <= w < kp.len() && w < bp.len() && bp[w] && #[trigger] kp[w] == a;
                    assert(bc[w] && kc[w] == a);
                    assert(post_set.contains(a));
                }
                if bs@[ri] && a == kv[ri] {
                    assert(bc[ri] && kc[ri] == a);
                    assert(post_set.contains(a));
                }
            }
        }
        if bs[r] {
            acc.insert(keys[r].clone());
            any = true;
            proof {
                assert(kv[ri] == keys@[ri]@);
                assert(acc@ =~= old(acc)@.union(post_set));
            }
        } else {
            proof {
                assert(acc@ =~= old(acc)@.union(post_set));
            }
        }
        r = r + 1;
    }
    proof {
        assert(kv.take(n as int) =~= kv);
        assert(bs@.take(n as int) =~= bs@);
    }
    any
}

/// Where exec resolution stands; mirrors `ResolveModel` with a concrete
/// key set.
pub enum ResolveStep {
    /// The resolved key set.
    Done(KeySet),
    /// The predicate of the conditional at this index must be asked once,
    /// without row context.
    NeedOnce(usize),
    /// The predicate of the conditional at this index must be asked of
    /// every row, in table order.
    NeedPerRow(usize),
    /// An outcome did not fit its conditional's shape or the table size.
    Mismatch,
}

/// Resolves a rule list against the table's keys, consuming predicate
/// `outcomes` in the order the conditionals are reached. Call it again with
/// one more outcome whenever it asks for one; rules after a stopping match
/// are never asked about.
#[verifier::loop_isolation(false)]
pub fn resolve_rules(
    rules: &Vec<Include>,
    mode: IncludeExclude,
    table_keys: &Vec<String>,
    outcomes: &Vec<PredOutcome>,
) -> (r: ResolveStep)
    ensures
        ({
            let m = spec_resolve(
                spec_rules_view(rules@),
                mode,
                spec_keys_view(table_keys@),
                spec_outs_view(outcomes@),
            );
            match r {
                ResolveStep::Done(s) => m matches ResolveModel::Done(ms) && s@ == ms
                    && s.well_formed(),
                ResolveStep::NeedOnce(i) => m == ResolveModel::NeedOnce(i as int),
                ResolveStep::NeedPerRow(i) => m == ResolveModel::NeedPerRow(i as int),
                ResolveStep::Mismatch => m is Mismatch,
            }
        }),
{
    let ghost rv = spec_rules_view(rules@);
    let ghost kv = spec_keys_view(table_keys@);
    let ghost ov = spec_outs_view(outcomes@);
    let n = rules.len();
    let mut acc = KeySet::new();
    let mut i: usize = 0;
    let mut oi: usize = 0;
    while i < n
        invariant
            i <= n,
            oi <= outcomes@.len(),
            acc.well_formed(),
            spec_resolve(rv, mode, kv, ov) == spec_resolve_from(
                rv,
                mode,
                kv,
                ov,
                i as int,
                oi as int,
                acc@,
            ),
        decreases n - i,
    {
        match &rules[i] {
            Include::Element(k) => {
                acc.insert(k.clone());
                i = i + 1;
            },
            Include::Conditional(c) => {
                if oi >= outcomes.len() {
                    if c.items.is_some() {
                        return ResolveStep::NeedOnce(i);
                    } else {
                        return ResolveStep::NeedPerRow(i);
                    }
                }
                let cont = match c.continue_ {
                    Some(b) => b,
                    None => false,
                };
                match (&c.items, &outcomes[oi]) {
                    (Some(its), PredOutcome::Once(b)) => {
                        let matched = *b;
                        if matched {
                            extend_items(&mut acc, its);
                        } else {
                            proof {
                                assert(acc@ =~= acc@.union(Set::<Seq<char>>::empty()));
                            }
                        }
                        oi = oi + 1;
                        if matched && (match mode {
                            IncludeExclude::Include => true,
                            IncludeExclude::Exclude => false,
                        }) && !cont {
                            return ResolveStep::Done(acc);
                        }
                        i = i + 1;
                    },
                    (None, PredOutcome::PerRow(bs)) => {
                        if bs.len() != table_keys.len() {
                            return ResolveStep::Mismatch;
                        }
                        let matched = add_matching_rows(&mut acc, table_keys, bs);
                        oi = oi + 1;
                        if matched && (match mode {
                            IncludeExclude::Include => true,
                            IncludeExclude::Exclude => false,
                        }) && !cont {
                            return ResolveStep::Done(acc);
                        }
                        i = i + 1;
                    },
                    _ => {
                        return ResolveStep::Mismatch;
                    },
                }
            },
        }
    }
    ResolveStep::Done(acc)
}

/// The number of conditional rules at or after index `i`: the outcomes a
/// full resolution from `i` consumes.
pub open spec fn spec_cond_count_from(rules: Seq<RuleModel>, i: int) -> int
    decreases rules.len() - i,
{
    if i < 0 || i >= rules.len() {
        0
    } else {
        (match rules[i] {
            RuleModel::Lit(_) => 0int,
            RuleModel::Cond { .. } => 1int,
        }) + spec_cond_count_from(rules, i + 1)
    }
}

/// Everything gathered so far stays in a finished resolution.
proof fn lemma_resolve_monotone(
    rules: Seq<RuleModel>,
    mode: IncludeExclude,
    keys: Seq<Seq<char>>,
    outs: Seq<OutcomeModel>,
    i: int,
    oi: int,
    acc: Set<Seq<char>>,
)
    requires
        spec_resolve_from(rules, mode, keys, outs, i, oi, acc) is Done,
    ensures
        acc.subset_of(spec_resolve_from(rules, mode, keys, outs, i, oi, acc)->Done_0),
    decreases rules.len() - i,
{
    if !(i < 0 || i >= rules.len()) {
        match rules[i] {
            RuleModel::Lit(k) => {
                lemma_resolve_monotone(rules, mode, keys, outs, i + 1, oi, acc.insert(k));
            },
            RuleModel::Cond { cond, items, cont } => {
                if !(oi >= outs.len() || oi < 0) {
                    match (items, outs[oi]) {
                        (Some(its), OutcomeModel::Once(b)) => {
                            let acc2 = if b {
                                acc.union(its.to_set())
                            } else {
                                acc
                            };
                            if !spec_stop(mode, b, cont) {
                                lemma_resolve_monotone(rules, mode, keys, outs, i + 1, oi + 1, acc2);
                            }
                        },
                        (None, OutcomeModel::PerRow(bs)) => {
                            if bs.len() == keys.len() {
                                let acc2 = acc.union(spec_row_matches(keys, bs));
                                let matched = exists|r: int| 0 <= r < bs.len() && bs[r];
                                if !spec_stop(mode, matched, cont) {
                                    lemma_resolve_monotone(
                                        rules,
                                        mode,
                                        keys,
                                        outs,
                                        i + 1,
                                        oi + 1,
                                        acc2,
                                    );
                                }
                            }
                        },
                        _ => {},
                    }
                }
            },
        }
    }
}

/// The starting set only adds to a resolution, it never changes whether or
/// how the rules resolve: a finished resolution from `acc` holds exactly
/// `acc` and what the rules contribute on their own.
proof fn lemma_resolve_acc(
    rules: Seq<RuleModel>,
    mode: IncludeExclude,
    keys: Seq<Seq<char>>,
    outs: Seq<OutcomeModel>,
    i: int,
    oi: int,
    acc1: Set<Seq<char>>,
    acc2: Set<Seq<char>>,
)
    ensures
        spec_resolve_from(rules, mode, keys, outs, i, oi, acc1) is Done <==> spec_resolve_from(
            rules,
            mode,
            keys,
            outs,
            i,
            oi,
            acc2,
        ) is Done,
        (spec_resolve_from(rules, mode, keys, outs, i, oi, acc1) is Done
            && spec_resolve_from(rules, mode, keys, outs, i, oi, acc2) is Done)
            ==> spec_resolve_from(rules, mode, keys, outs, i, oi, acc1)->Done_0.union(acc2)
            == spec_resolve_from(rules, mode, keys, outs, i, oi, acc2)->Done_0.union(acc1),
    decreases rules.len() - i,
{
    if i < 0 || i >= rules.len() {
        assert(acc1.union(acc2) =~= acc2.union(acc1));
    } else {
        match rules[i] {
            RuleModel::Lit(k) => {
                lemma_resolve_acc(rules, mode, keys, outs, i + 1, oi, acc1.insert(k), acc2.insert(k));
                let r1 = spec_resolve_from(rules, mode, keys, outs, i + 1, oi, acc1.insert(k));
                let r2 = spec_resolve_from(rules, mode, keys, outs, i + 1, oi, acc2.insert(k));
                if r1 is Done && r2 is Done {
                    lemma_resolve_monotone(rules, mode, keys, outs, i + 1, oi, acc1.insert(k));
                    lemma_resolve_monotone(rules, mode, keys, outs, i + 1, oi, acc2.insert(k));
                    assert(r1->Done_0.union(acc2) =~= r1->Done_0.union(acc2.insert(k)));
                    assert(r2->Done_0.union(acc1) =~= r2->Done_0.union(acc1.insert(k)));
                }
            },
            RuleModel::Cond { cond, items, cont } => {
                if !(oi >= outs.len() || oi < 0) {
                    match (items, outs[oi]) {
                        (Some(its), OutcomeModel::Once(b)) => {
                            let d1 = if b {
                                acc1.union(its.to_set())
                            } else {
                                acc1
                            };
                            let d2 = if b {
                                acc2.union(its.to_set())
                            } else {
                                acc2
                            };
                            if spec_stop(mode, b, cont) {
                                assert(d1.union(acc2) =~= d2.union(acc1));
                            } else {
                                lemma_resolve_acc(rules, mode, keys, outs, i + 1, oi + 1, d1, d2);
                                let r1 = spec_resolve_from(rules, mode, keys, outs, i + 1, oi + 1, d1);
                                let r2 = spec_resolve_from(rules, mode, keys, outs, i + 1, oi + 1, d2);
                                if r1 is Done && r2 is Done {
                                    lemma_resolve_monotone(rules, mode, keys, outs, i + 1, oi + 1, d1);
                                    lemma_resolve_monotone(rules, mode, keys, outs, i + 1, oi + 1, d2);
                                    assert(r1->Done_0.union(acc2) =~= r1->Done_0.union(d2));
                                    assert(r2->Done_0.union(acc1) =~= r2->Done_0.union(d1));
                                }
                            }
                        },
                        (None, OutcomeModel::PerRow(bs)) => {
                            if bs.len() == keys.len() {
                                let d1 = acc1.union(spec_row_matches(keys, bs));
                                let d2 = acc2.union(spec_row_matches(keys, bs));
                                let matched = exists|r: int| 0 <= r < bs.len() && bs[r];
                                if spec_stop(mode, matched, cont) {
                                    assert(d1.union(acc2) =~= d2.union(acc1));
                                } else {
                                    lemma_resolve_acc(rules, mode, keys, outs, i + 1, oi + 1, d1, d2);
                                    let r1 = spec_resolve_from(rules, mode, keys, outs, i + 1, oi + 1, d1);
                                    let r2 = spec_resolve_from(rules, mode, keys, outs, i + 1, oi + 1, d2);
                                    if r1 is Done && r2 is Done {
                                        lemma_resolve_monotone(rules, mode, keys, outs, i + 1, oi + 1, d1);
                                        lemma_resolve_monotone(rules, mode, keys, outs, i + 1, oi + 1, d2);
                                        assert(r1->Done_0.union(acc2) =~= r1->Done_0.union(d2));
                                        assert(r2->Done_0.union(acc1) =~= r2->Done_0.union(d1));
                                    }
                                }
                            }
                        },
                        _ => {},
                    }
                }
            },
        }
    }
}

/// In a finished dropping-list resolution every outcome is consumed: the
/// list never stops early, so it ends with the outcome index at the end of
/// the outcomes it was given.
proof fn lemma_exclude_shift(
    a: Seq<RuleModel>,
    b: Seq<RuleModel>,
    keys: Seq<Seq<char>>,
    oa: Seq<OutcomeModel>,
    ob: Seq<OutcomeModel>,
    j: int,
    p: int,
    acc: Set<Seq<char>>,
)
    requires
        0 <= j,
        0 <= p,
        spec_resolve_from(b, IncludeExclude::Exclude, keys, ob, j, p, acc) is Done,
    ensures
        spec_resolve_from(
            a + b,
            IncludeExclude::Exclude,
            keys,
            oa + ob,
            a.len() + j,
            oa.len() + p,
            acc,
        ) == spec_resolve_from(b, IncludeExclude::Exclude, keys, ob, j, p, acc),
    decreases b.len() - j,
{
    let m = IncludeExclude::Exclude;
    if j >= b.len() {
    } else {
        assert((a + b)[a.len() + j] == b[j]);
        match b[j] {
            RuleModel::Lit(k) => {
                lemma_exclude_shift(a, b, keys, oa, ob, j + 1, p, acc.insert(k));
            },
            RuleModel::Cond { cond, items, cont } => {
                assert(p < ob.len());
                assert((oa + ob)[oa.len() + p] == ob[p]);
                match (items, ob[p]) {
                    (Some(its), OutcomeModel::Once(bv)) => {
                        let d = if bv {
                            acc.union(its.to_set())
                        } else {
                            acc
                        };
                        lemma_exclude_shift(a, b, keys, oa, ob, j + 1, p + 1, d);
                    },
                    (None, OutcomeModel::PerRow(bs)) => {
                        let d = acc.union(spec_row_matches(keys, bs));
                        lemma_exclude_shift(a, b, keys, oa, ob, j + 1, p + 1, d);
                    },
                    _ => {},
                }
            },
        }
    }
}

/// Helper for the concatenation law: walks the first list inside the
/// concatenation.
proof fn lemma_exclude_concat_from(
    a: Seq<RuleModel>,
    b: Seq<RuleModel>,
    keys: Seq<Seq<char>>,
    oa: Seq<OutcomeModel>,
    ob: Seq<OutcomeModel>,
    i: int,
    oi: int,
    acc: Set<Seq<char>>,
)
    requires
        0 <= i <= a.len(),
        0 <= oi <= oa.len(),
        spec_resolve_from(a, IncludeExclude::Exclude, keys, oa, i, oi, acc) is Done,
        spec_cond_count_from(a, i) == oa.len() - oi,
        spec_resolve(b, IncludeExclude::Exclude, keys, ob) is Done,
    ensures
        spec_resolve_from(a + b, IncludeExclude::Exclude, keys, oa + ob, i, oi, acc) is Done,
        spec_resolve_from(a + b, IncludeExclude::Exclude, keys, oa + ob, i, oi, acc)->Done_0
            == spec_resolve_from(a, IncludeExclude::Exclude, keys, oa, i, oi, acc)->Done_0.union(
            spec_resolve(b, IncludeExclude::Exclude, keys, ob)->Done_0,
        ),
    decreases a.len() - i,
{
    let m = IncludeExclude::Exclude;
    if i >= a.len() {
        // the first list is exhausted: all its outcomes are consumed, and
        // the rest of the walk is exactly the second list's own resolution
        assert(oi == oa.len());
        lemma_resolve_acc(b, m, keys, ob, 0, 0, acc, Set::empty());
        lemma_exclude_shift(a, b, keys, oa, ob, 0, 0, acc);
        let rb0 = spec_resolve(b, m, keys, ob)->Done_0;
        let rba = spec_resolve_from(b, m, keys, ob, 0, 0, acc)->Done_0;
        assert(rba.union(Set::empty()) == rb0.union(acc));
        assert(rba.union(Set::empty()) =~= rba);
        assert(acc.union(rb0) =~= rb0.union(acc));
    } else {
        assert((a + b)[i] == a[i]);
        match a[i] {
            RuleModel::Lit(k) => {
                lemma_exclude_concat_from(a, b, keys, oa, ob, i + 1, oi, acc.insert(k));
            },
            RuleModel::Cond { cond, items, cont } => {
                assert(spec_cond_count_from(a, i + 1) >= 0) by {
                    lemma_cond_count_nonneg(a, i + 1);
                }
                assert(oi < oa.len());
                assert((oa + ob)[oi] == oa[oi]);
                match (items, oa[oi]) {
                    (Some(its), OutcomeModel::Once(bv)) => {
                        let d = if bv {
                            acc.union(its.to_set())
                        } else {
                            acc
                        };
                        lemma_exclude_concat_from(a, b, keys, oa, ob, i + 1, oi + 1, d);
                    },
                    (None, OutcomeModel::PerRow(bs)) => {
                        let d = acc.union(spec_row_matches(keys, bs));
                        lemma_exclude_concat_from(a, b, keys, oa, ob, i + 1, oi + 1, d);
                    },
                    _ => {},
                }
            },
        }
    }
}

proof fn lemma_cond_count_nonneg(rules: Seq<RuleModel>, i: int)
    ensures
        spec_cond_count_from(rules, i) >= 0,
    decreases rules.len() - i,
{
    if !(i < 0 || i >= rules.len()) {
        lemma_cond_count_nonneg(rules, i + 1);
    }
}

/// A dropping list is an exhaustive blocklist: resolving two dropping
/// lists one after the other drops the union of what each drops on its
/// own, so the subtraction a dropping list causes does not depend on the
/// order of its parts.
pub proof fn lemma_exclude_concat(
    a: Seq<RuleModel>,
    b: Seq<RuleModel>,
    keys: Seq<Seq<char>>,
    oa: Seq<OutcomeModel>,
    ob: Seq<OutcomeModel>,
)
    requires
        spec_resolve(a, IncludeExclude::Exclude, keys, oa) is Done,
        spec_resolve(b, IncludeExclude::Exclude, keys, ob) is Done,
        spec_cond_count_from(a, 0) == oa.len(),
    ensures
        spec_resolve(a + b, IncludeExclude::Exclude, keys, oa + ob) is Done,
        spec_resolve(a + b, IncludeExclude::Exclude, keys, oa + ob)->Done_0 == spec_resolve(
            a,
            IncludeExclude::Exclude,
            keys,
            oa,
        )->Done_0.union(spec_resolve(b, IncludeExclude::Exclude, keys, ob)->Done_0),
{
    lemma_exclude_concat_from(a, b, keys, oa, ob, 0, 0, Set::empty());
}

/// Swapping two halves of a dropping list drops the same keys: the
/// blocklist's effect is order-insensitive.
pub proof fn lemma_exclude_swap(
    a: Seq<RuleModel>,
    b: Seq<RuleModel>,
    keys: Seq<Seq<char>>,
    oa: Seq<OutcomeModel>,
    ob: Seq<OutcomeModel>,
)
    requires
        spec_resolve(a, IncludeExclude::Exclude, keys, oa) is Done,
        spec_resolve(b, IncludeExclude::Exclude, keys, ob) is Done,
        spec_cond_count_from(a, 0) == oa.len(),
        spec_cond_count_from(b, 0) == ob.len(),
    ensures
        spec_resolve(a + b, IncludeExclude::Exclude, keys, oa + ob) is Done,
        spec_resolve(b + a, IncludeExclude::Exclude, keys, ob + oa) is Done,
        spec_resolve(a + b, IncludeExclude::Exclude, keys, oa + ob)->Done_0 == spec_resolve(
            b + a,
            IncludeExclude::Exclude,
            keys,
            ob + oa,
        )->Done_0,
{
    lemma_exclude_concat(a, b, keys, oa, ob);
    lemma_exclude_concat(b, a, keys, ob, oa);
    let sa = spec_resolve(a, IncludeExclude::Exclude, keys, oa)->Done_0;
    let sb = spec_resolve(b, IncludeExclude::Exclude, keys, ob)->Done_0;
    assert(sa.union(sb) =~= sb.union(sa));
}

} // verus!
