//! The scoped activation walker: applies a set of rules lazily during a
//! recursive descent over a document tree, each rule scoped to the subtree
//! where it first matched.
//!
//! The walker works on this crate's own tree values. Each element node
//! carries, per rule in force, whether the rule fully matches it; whoever
//! builds the tree computes those verdicts with the rule evaluator. A
//! per-rule activation level records the depth at which the rule first
//! matched: `0` is inactive, and returning above that depth clears it, so
//! the depth-tagged array behaves as a scope stack without one.

use vstd::prelude::*;

use crate::chapter::{ChapterBuilder, InlineElement};
use crate::sed::{spec_apply_text, Sed, SedModel};

verus! {

/// A document tree node as the walker sees it: an element with its
/// per-rule match verdicts and children, or a text node.
#[derive(Debug)]
pub enum DomNode {
    Element { name: String, matches: Vec<bool>, children: Vec<DomNode> },
    Text(String),
}

/// Whether every element node carries one verdict per rule.
pub open spec fn node_wf(n: DomNode, np: int) -> bool
    decreases n,
{
    match n {
        DomNode::Text(_) => true,
        DomNode::Element { matches, children, .. } => {
            &&& matches@.len() == np
            &&& forall|k: int| 0 <= k < children@.len() ==> node_wf(#[trigger] children@[k], np)
        },
    }
}

/// The height of a node: text nodes are flat; an element stands one above
/// its tallest child.
pub open spec fn node_height(n: DomNode) -> int
    decreases n, 0int,
{
    match n {
        DomNode::Text(_) => 0,
        DomNode::Element { children, .. } => 1 + kids_height(children@, 0),
    }
}

/// The tallest height among a list of nodes, from position `i` on.
pub open spec fn kids_height(kids: Seq<DomNode>, i: int) -> int
    decreases kids, kids.len() - i,
{
    if i < 0 || i >= kids.len() {
        0
    } else {
        let rest = kids_height(kids, i + 1);
        let h = node_height(kids[i]);
        if h > rest {
            h
        } else {
            rest
        }
    }
}

/// Every rule in the list is well-formed.
pub open spec fn seds_wf(ps: Seq<Sed>) -> bool {
    forall|i: int| 0 <= i < ps.len() ==> (#[trigger] ps[i]).wf()
}

/// The models of a rule list.
pub open spec fn sed_views(ps: Seq<Sed>) -> Seq<SedModel> {
    ps.map_values(|s: Sed| s@)
}

/// All activation levels lie strictly below the given depth.
pub open spec fn levels_lt(levels: Seq<int>, d: int) -> bool {
    forall|i: int| 0 <= i < levels.len() ==> 0 <= #[trigger] levels[i] < d
}

/// The text after folding every active rule over it, in rule order.
pub open spec fn spec_fold_text(ms: Seq<SedModel>, levels: Seq<int>, i: int, t: Seq<char>) -> Seq<
    char,
>
    decreases ms.len() - i when 0 <= i <= ms.len()
{
    if i >= ms.len() {
        t
    } else {
        let t2 = if levels[i] != 0 {
            spec_apply_text(ms[i], t)
        } else {
            t
        };
        spec_fold_text(ms, levels, i + 1, t2)
    }
}

/// The levels with every entry at the given depth cleared.
pub open spec fn reset_at(levels: Seq<int>, d: int) -> Seq<int> {
    levels.map_values(|v: int| if v == d { 0 } else { v })
}

/// The activation pass over an element: rules are tried in order; an
/// inactive rule that matches activates at this depth, unless it deletes,
/// in which case every activation made at this depth is undone and the
/// element is abandoned.
pub open spec fn spec_activate(
    ms: Seq<SedModel>,
    matches: Seq<bool>,
    levels: Seq<int>,
    d: int,
    i: int,
) -> (Seq<int>, bool)
    decreases ms.len() - i when 0 <= i <= ms.len()
{
    if i >= ms.len() {
        (levels, false)
    } else if levels[i] == 0 && matches[i] {
        if ms[i].op is Delete {
            (reset_at(levels, d), true)
        } else {
            spec_activate(ms, matches, levels.update(i, d), d, i + 1)
        }
    } else {
        spec_activate(ms, matches, levels, d, i + 1)
    }
}

/// What walking a node emits and what the levels become: a text node emits
/// its content folded through the active rules; an element activates
/// matching rules at its depth, descends into its children one deeper
/// (unless a matching delete rule abandons it), and clears its depth's
/// activations afterwards.
pub open spec fn spec_walk(ms: Seq<SedModel>, node: DomNode, d: int, levels: Seq<int>) -> (
    Seq<Seq<char>>,
    Seq<int>,
)
    decreases node, 0int,
{
    match node {
        DomNode::Text(t) => (seq![spec_fold_text(ms, levels, 0, t@)], levels),
        DomNode::Element { matches, children, .. } => {
            let (lv1, abandoned) = spec_activate(ms, matches@, levels, d, 0);
            if abandoned {
                (Seq::empty(), lv1)
            } else {
                let (texts, lv2) = spec_walk_seq(ms, children@, 0, d + 1, lv1);
                (texts, reset_at(lv2, d))
            }
        },
    }
}

/// What walking a run of sibling nodes emits, threading the levels through.
pub open spec fn spec_walk_seq(
    ms: Seq<SedModel>,
    kids: Seq<DomNode>,
    i: int,
    d: int,
    levels: Seq<int>,
) -> (Seq<Seq<char>>, Seq<int>)
    decreases kids, kids.len() - i,
{
    if i < 0 || i >= kids.len() {
        (Seq::empty(), levels)
    } else {
        let (t1, lv1) = spec_walk(ms, kids[i], d, levels);
        let (t2, lv2) = spec_walk_seq(ms, kids, i + 1, d, lv1);
        (t1 + t2, lv2)
    }
}


/// Clearing a depth no entry sits at changes nothing.
proof fn lemma_reset_restores(levels: Seq<int>, d: int)
    requires
        levels_lt(levels, d),
    ensures
        reset_at(levels, d) == levels,
{
    assert(reset_at(levels, d) =~= levels);
}

/// What the activation pass does to the levels: lengths are kept; without
/// an abandonment each entry is kept or raised from zero to this depth;
/// an abandonment hands the entry levels back unchanged.
proof fn lemma_activate_bounds(
    ms: Seq<SedModel>,
    matches: Seq<bool>,
    levels: Seq<int>,
    d: int,
    i: int,
)
    requires
        levels.len() == ms.len(),
        matches.len() == ms.len(),
        0 <= i <= ms.len(),
        1 <= d,
        forall|j: int| 0 <= j < levels.len() ==> 0 <= #[trigger] levels[j] < d || levels[j] == d,
    ensures
        spec_activate(ms, matches, levels, d, i).0.len() == levels.len(),
        !spec_activate(ms, matches, levels, d, i).1 ==> forall|j: int|
            0 <= j < levels.len() ==> spec_activate(ms, matches, levels, d, i).0[j] == levels[j]
                || (levels[j] == 0 && #[trigger] spec_activate(ms, matches, levels, d, i).0[j]
                == d),
        spec_activate(ms, matches, levels, d, i).1 ==> spec_activate(ms, matches, levels, d, i).0
            == reset_at(levels, d),
    decreases ms.len() - i,
{
    if i >= ms.len() {
    } else if levels[i] == 0 && matches[i] {
        if ms[i].op is Delete {
        } else {
            lemma_activate_bounds(ms, matches, levels.update(i, d), d, i + 1);
            if spec_activate(ms, matches, levels, d, i).1 {
                assert(reset_at(levels.update(i, d), d) =~= reset_at(levels, d));
            }
        }
    } else {
        lemma_activate_bounds(ms, matches, levels, d, i + 1);
    }
}

/// The stack-like discipline: walking any node returns the activation
/// levels exactly as they were, because a rule's activation is tied to the
/// depth at which it first matched and walking back above that depth
/// always clears it.
pub proof fn lemma_walk_restores(ms: Seq<SedModel>, node: DomNode, d: int, levels: Seq<int>)
    requires
        levels.len() == ms.len(),
        node_wf(node, ms.len() as int),
        levels_lt(levels, d),
        1 <= d,
    ensures
        spec_walk(ms, node, d, levels).1 == levels,
    decreases node, 0int,
{
    match node {
        DomNode::Text(_) => {},
        DomNode::Element { matches, children, .. } => {
            lemma_activate_bounds(ms, matches@, levels, d, 0);
            let (lv1, abandoned) = spec_activate(ms, matches@, levels, d, 0);
            if abandoned {
                lemma_reset_restores(levels, d);
            } else {
                assert(levels_lt(lv1, d + 1));
                lemma_walk_seq_restores(ms, children@, 0, d + 1, lv1);
                let lv2 = spec_walk_seq(ms, children@, 0, d + 1, lv1).1;
                assert(lv2 == lv1);
                assert(reset_at(lv1, d) =~= levels);
            }
        },
    }
}

/// Walking a run of siblings returns the levels unchanged.
pub proof fn lemma_walk_seq_restores(
    ms: Seq<SedModel>,
    kids: Seq<DomNode>,
    i: int,
    d: int,
    levels: Seq<int>,
)
    requires
        levels.len() == ms.len(),
        forall|k: int| 0 <= k < kids.len() ==> node_wf(#[trigger] kids[k], ms.len() as int),
        levels_lt(levels, d),
        1 <= d,
    ensures
        spec_walk_seq(ms, kids, i, d, levels).1 == levels,
    decreases kids, kids.len() - i,
{
    if i < 0 || i >= kids.len() {
    } else {
        lemma_walk_restores(ms, kids[i], d, levels);
        lemma_walk_seq_restores(ms, kids, i + 1, d, levels);
    }
}

/// A matching, inactive delete rule abandons the element.
proof fn lemma_activate_abandons(
    ms: Seq<SedModel>,
    matches: Seq<bool>,
    levels: Seq<int>,
    d: int,
    i: int,
    w: int,
)
    requires
        levels.len() == ms.len(),
        matches.len() == ms.len(),
        0 <= i <= w < ms.len(),
        levels[w] == 0,
        matches[w],
        ms[w].op is Delete,
    ensures
        spec_activate(ms, matches, levels, d, i).1,
    decreases ms.len() - i,
{
    if i == w {
    } else if levels[i] == 0 && matches[i] {
        if ms[i].op is Delete {
        } else {
            lemma_activate_abandons(ms, matches, levels.update(i, d), d, i + 1, w);
        }
    } else {
        lemma_activate_abandons(ms, matches, levels, d, i + 1, w);
    }
}

/// A delete rule matching an element suppresses the whole subtree: nothing
/// is emitted for it, not even text no rule matches, and the activation
/// levels come back unchanged.
pub proof fn lemma_delete_suppresses_subtree(
    ms: Seq<SedModel>,
    node: DomNode,
    d: int,
    levels: Seq<int>,
    w: int,
)
    requires
        levels.len() == ms.len(),
        node_wf(node, ms.len() as int),
        levels_lt(levels, d),
        1 <= d,
        node matches DomNode::Element { matches, .. } && 0 <= w < ms.len() && levels[w] == 0
            && matches@[w] && ms[w].op is Delete,
    ensures
        spec_walk(ms, node, d, levels).0 == Seq::<Seq<char>>::empty(),
        spec_walk(ms, node, d, levels).1 == levels,
{
    match node {
        DomNode::Element { matches, .. } => {
            lemma_activate_abandons(ms, matches@, levels, d, 0, w);
            lemma_activate_bounds(ms, matches@, levels, d, 0);
            lemma_reset_restores(levels, d);
        },
        _ => {},
    }
}

/// A non-delete rule that matches an element that nothing deletes becomes
/// active at the element's depth for the walk of its children, and is
/// cleared again once the subtree is done.
pub proof fn lemma_nondelete_scopes(
    ms: Seq<SedModel>,
    node: DomNode,
    d: int,
    levels: Seq<int>,
    w: int,
)
    requires
        levels.len() == ms.len(),
        node_wf(node, ms.len() as int),
        levels_lt(levels, d),
        1 <= d,
        node matches DomNode::Element { matches, .. } && 0 <= w < ms.len() && levels[w] == 0
            && matches@[w] && !(ms[w].op is Delete),
        node matches DomNode::Element { matches, .. } ==> !spec_activate(
            ms,
            matches@,
            levels,
            d,
            0,
        ).1,
    ensures
        node matches DomNode::Element { matches, children, .. } ==> {
            let lv1 = spec_activate(ms, matches@, levels, d, 0).0;
            &&& lv1[w] == d
            &&& spec_walk(ms, node, d, levels).0 == spec_walk_seq(ms, children@, 0, d + 1, lv1).0
            &&& spec_walk(ms, node, d, levels).1 == levels
        },
{
    match node {
        DomNode::Element { matches, children, .. } => {
            lemma_activate_sets(ms, matches@, levels, d, 0, w);
            lemma_activate_bounds(ms, matches@, levels, d, 0);
            let lv1 = spec_activate(ms, matches@, levels, d, 0).0;
            assert(levels_lt(lv1, d + 1));
            lemma_walk_seq_restores(ms, children@, 0, d + 1, lv1);
            assert(reset_at(lv1, d) =~= levels);
        },
        _ => {},
    }
}

/// Without an abandonment, a matching inactive non-delete rule ends the
/// activation pass active at this depth.
proof fn lemma_activate_sets(
    ms: Seq<SedModel>,
    matches: Seq<bool>,
    levels: Seq<int>,
    d: int,
    i: int,
    w: int,
)
    requires
        levels.len() == ms.len(),
        matches.len() == ms.len(),
        0 <= i <= w < ms.len(),
        1 <= d,
        levels[w] == 0 || levels[w] == d,
        matches[w],
        !(ms[w].op is Delete),
        !spec_activate(ms, matches, levels, d, i).1,
    ensures
        spec_activate(ms, matches, levels, d, i).0[w] == d,
    decreases ms.len() - i,
{
    if i >= ms.len() {
        assert(i <= w < ms.len());
    } else if levels[i] == 0 && matches[i] {
        if ms[i].op is Delete {
        } else {
            if i == w {
                lemma_activate_keeps_set(ms, matches, levels.update(i, d), d, i + 1, w);
            } else {
                lemma_activate_sets(ms, matches, levels.update(i, d), d, i + 1, w);
            }
        }
    } else {
        if i == w {
            assert(levels[w] == d);
            lemma_activate_keeps_set(ms, matches, levels, d, i + 1, w);
        } else {
            lemma_activate_sets(ms, matches, levels, d, i + 1, w);
        }
    }
}

/// Without an abandonment, an entry already at this depth stays there.
proof fn lemma_activate_keeps_set(
    ms: Seq<SedModel>,
    matches: Seq<bool>,
    levels: Seq<int>,
    d: int,
    i: int,
    w: int,
)
    requires
        levels.len() == ms.len(),
        matches.len() == ms.len(),
        0 <= i <= ms.len(),
        0 <= w < ms.len(),
        1 <= d,
        levels[w] == d,
        !spec_activate(ms, matches, levels, d, i).1,
    ensures
        spec_activate(ms, matches, levels, d, i).0[w] == d,
    decreases ms.len() - i,
{
    if i >= ms.len() {
    } else if levels[i] == 0 && matches[i] {
        if ms[i].op is Delete {
        } else {
            lemma_activate_keeps_set(ms, matches, levels.update(i, d), d, i + 1, w);
        }
    } else {
        lemma_activate_keeps_set(ms, matches, levels, d, i + 1, w);
    }
}

/// When exactly one rule is active, folding the rules over a text applies
/// exactly that rule.
pub proof fn lemma_fold_single_active(ms: Seq<SedModel>, levels: Seq<int>, t: Seq<char>, w: int)
    requires
        levels.len() == ms.len(),
        0 <= w < ms.len(),
        levels[w] != 0,
        forall|j: int| 0 <= j < levels.len() && j != w ==> #[trigger] levels[j] == 0,
    ensures
        spec_fold_text(ms, levels, 0, t) == spec_apply_text(ms[w], t),
{
    lemma_fold_before(ms, levels, t, 0, w);
}

/// Folding from a position at or before the single active rule applies it.
proof fn lemma_fold_before(ms: Seq<SedModel>, levels: Seq<int>, t: Seq<char>, i: int, w: int)
    requires
        levels.len() == ms.len(),
        0 <= i <= w < ms.len(),
        levels[w] != 0,
        forall|j: int| 0 <= j < levels.len() && j != w ==> #[trigger] levels[j] == 0,
    ensures
        spec_fold_text(ms, levels, i, t) == spec_apply_text(ms[w], t),
    decreases ms.len() - i,
{
    if i == w {
        lemma_fold_after(ms, levels, spec_apply_text(ms[w], t), w + 1);
    } else {
        lemma_fold_before(ms, levels, t, i + 1, w);
    }
}

/// Folding over only inactive rules changes nothing.
proof fn lemma_fold_after(ms: Seq<SedModel>, levels: Seq<int>, t: Seq<char>, i: int)
    requires
        levels.len() == ms.len(),
        0 <= i <= ms.len(),
        forall|j: int| i <= j < levels.len() ==> #[trigger] levels[j] == 0,
    ensures
        spec_fold_text(ms, levels, i, t) == t,
    decreases ms.len() - i,
{
    if i < ms.len() {
        lemma_fold_after(ms, levels, t, i + 1);
    }
}


/// The scope rules met concretely: when exactly one rule is in force, it
/// is not a delete, it is inactive, and it matches an element whose only
/// child is a text node, then walking the element emits exactly that text
/// with the rule applied, and the levels come back untouched.
pub proof fn lemma_nondelete_applies_to_text(ms: Seq<SedModel>, node: DomNode, d: int, t: Seq<char>)
    requires
        ms.len() == 1,
        !(ms[0].op is Delete),
        1 <= d,
        node matches DomNode::Element { matches, children, .. } && matches@ =~= seq![true]
            && children@.len() == 1 && (children@[0] matches DomNode::Text(tt) && tt@ == t),
    ensures
        spec_walk(ms, node, d, seq![0int]).0 =~= seq![spec_apply_text(ms[0], t)],
        spec_walk(ms, node, d, seq![0int]).1 =~= seq![0int],
{
    match node {
        DomNode::Element { matches, children, .. } => {
            let levels: Seq<int> = seq![0int];
            let (lv1, abandoned) = spec_activate(ms, matches@, levels, d, 0);
            assert(matches@[0]);
            assert(spec_activate(ms, matches@, levels.update(0, d), d, 1) == (
                levels.update(0, d),
                false,
            ));
            assert(!abandoned);
            assert(lv1 =~= seq![d]);
            let kids = children@;
            let folded = spec_fold_text(ms, lv1, 0, t);
            assert(lv1[0] == d && d != 0);
            assert(spec_fold_text(ms, lv1, 1, spec_apply_text(ms[0], t)) == spec_apply_text(
                ms[0],
                t,
            ));
            assert(folded == spec_apply_text(ms[0], t));
            match kids[0] {
                DomNode::Text(tt) => {
                    assert(spec_walk(ms, kids[0], d + 1, lv1).0 =~= seq![folded]);
                    assert(spec_walk(ms, kids[0], d + 1, lv1).1 == lv1);
                },
                _ => {
                    assert(false);
                },
            }
            assert(spec_walk_seq(ms, kids, 1, d + 1, lv1) == (Seq::<Seq<char>>::empty(), lv1));
            let (ts, l2) = spec_walk_seq(ms, kids, 0, d + 1, lv1);
            assert(ts =~= seq![folded]);
            assert(l2 == lv1);
            assert(reset_at(lv1, d) =~= seq![0int]);
        },
        _ => {},
    }
}

/// Whether every delete rule is inactive.
pub open spec fn deletes_inactive(ms: Seq<SedModel>, levels: Seq<int>) -> bool {
    forall|j: int| 0 <= j < ms.len() && (#[trigger] ms[j]).op is Delete ==> levels[j] == 0
}

/// Delete rules never activate: the activation pass keeps every delete
/// rule's level at zero.
pub proof fn lemma_activate_deletes_inactive(
    ms: Seq<SedModel>,
    matches: Seq<bool>,
    levels: Seq<int>,
    d: int,
    i: int,
)
    requires
        levels.len() == ms.len(),
        matches.len() == ms.len(),
        0 <= i <= ms.len(),
        deletes_inactive(ms, levels),
    ensures
        deletes_inactive(ms, spec_activate(ms, matches, levels, d, i).0),
    decreases ms.len() - i,
{
    if i >= ms.len() {
    } else if levels[i] == 0 && matches[i] {
        if ms[i].op is Delete {
            assert forall|j: int|
                0 <= j < ms.len() && (#[trigger] ms[j]).op is Delete implies reset_at(
                levels,
                d,
            )[j] == 0 by {
                assert(levels[j] == 0);
            }
        } else {
            assert(deletes_inactive(ms, levels.update(i, d)));
            lemma_activate_deletes_inactive(ms, matches, levels.update(i, d), d, i + 1);
        }
    } else {
        lemma_activate_deletes_inactive(ms, matches, levels, d, i + 1);
    }
}

/// A delete rule that matches an element always suppresses its whole
/// subtree: delete rules never activate, so whenever the walk reaches the
/// element the rule is still inactive, nothing is emitted for the element,
/// and the levels come back untouched.
pub proof fn lemma_delete_always_suppresses(
    ms: Seq<SedModel>,
    node: DomNode,
    d: int,
    levels: Seq<int>,
    w: int,
)
    requires
        levels.len() == ms.len(),
        node_wf(node, ms.len() as int),
        levels_lt(levels, d),
        1 <= d,
        deletes_inactive(ms, levels),
        node matches DomNode::Element { matches, .. } && 0 <= w < ms.len() && matches@[w]
            && ms[w].op is Delete,
    ensures
        spec_walk(ms, node, d, levels).0 == Seq::<Seq<char>>::empty(),
        spec_walk(ms, node, d, levels).1 == levels,
{
    lemma_delete_suppresses_subtree(ms, node, d, levels, w);
}

/// A rule active when a subtree walk starts stays in force for every
/// emission below it: each emitted text is the fold of some text through a
/// level state that still holds the rule at its level.
pub proof fn lemma_active_rule_covers_subtree(
    ms: Seq<SedModel>,
    node: DomNode,
    d: int,
    levels: Seq<int>,
    w: int,
)
    requires
        levels.len() == ms.len(),
        node_wf(node, ms.len() as int),
        levels_lt(levels, d),
        1 <= d,
        0 <= w < ms.len(),
        levels[w] != 0,
    ensures
        forall|k: int|
            0 <= k < spec_walk(ms, node, d, levels).0.len() ==> exists|t: Seq<char>, l: Seq<int>|
                l.len() == ms.len() && l[w] == levels[w] && #[trigger] spec_walk(
                    ms,
                    node,
                    d,
                    levels,
                ).0[k] == spec_fold_text(ms, l, 0, t),
    decreases node, 0int,
{
    match node {
        DomNode::Text(t) => {
            assert forall|k: int|
                0 <= k < spec_walk(ms, node, d, levels).0.len() implies exists|
                t2: Seq<char>,
                l: Seq<int>,
            |
                l.len() == ms.len() && l[w] == levels[w] && #[trigger] spec_walk(
                    ms,
                    node,
                    d,
                    levels,
                ).0[k] == spec_fold_text(ms, l, 0, t2) by {
                let t2 = t@;
                let l = levels;
                assert(spec_walk(ms, node, d, levels).0[k] == spec_fold_text(ms, l, 0, t2));
            }
        },
        DomNode::Element { matches, children, .. } => {
            lemma_activate_bounds(ms, matches@, levels, d, 0);
            let (lv1, abandoned) = spec_activate(ms, matches@, levels, d, 0);
            if !abandoned {
                assert(lv1[w] == levels[w]);
                assert(levels_lt(lv1, d + 1));
                lemma_active_rule_covers_seq(ms, children@, 0, d + 1, lv1, w);
                assert forall|k: int|
                    0 <= k < spec_walk(ms, node, d, levels).0.len() implies exists|
                    t: Seq<char>,
                    l: Seq<int>,
                |
                    l.len() == ms.len() && l[w] == levels[w] && #[trigger] spec_walk(
                        ms,
                        node,
                        d,
                        levels,
                    ).0[k] == spec_fold_text(ms, l, 0, t) by {
                    assert(spec_walk(ms, node, d, levels).0 == spec_walk_seq(
                        ms,
                        children@,
                        0,
                        d + 1,
                        lv1,
                    ).0);
                    let (t, l) = choose|t: Seq<char>, l: Seq<int>|
                        l.len() == ms.len() && l[w] == lv1[w] && #[trigger] spec_walk_seq(
                            ms,
                            children@,
                            0,
                            d + 1,
                            lv1,
                        ).0[k] == spec_fold_text(ms, l, 0, t);
                    assert(spec_walk(ms, node, d, levels).0[k] == spec_fold_text(ms, l, 0, t));
                }
            }
        },
    }
}

/// The sibling-run form of the covering law: a rule active when the run
/// starts holds its level through every emission of the run.
pub proof fn lemma_active_rule_covers_seq(
    ms: Seq<SedModel>,
    kids: Seq<DomNode>,
    i: int,
    d: int,
    levels: Seq<int>,
    w: int,
)
    requires
        levels.len() == ms.len(),
        forall|k: int| 0 <= k < kids.len() ==> node_wf(#[trigger] kids[k], ms.len() as int),
        levels_lt(levels, d),
        1 <= d,
        0 <= w < ms.len(),
        levels[w] != 0,
    ensures
        forall|k: int|
            0 <= k < spec_walk_seq(ms, kids, i, d, levels).0.len() ==> exists|
                t: Seq<char>,
                l: Seq<int>,
            |
                l.len() == ms.len() && l[w] == levels[w] && #[trigger] spec_walk_seq(
                    ms,
                    kids,
                    i,
                    d,
                    levels,
                ).0[k] == spec_fold_text(ms, l, 0, t),
    decreases kids, kids.len() - i,
{
    if i < 0 || i >= kids.len() {
    } else {
        lemma_walk_restores(ms, kids[i], d, levels);
        lemma_active_rule_covers_subtree(ms, kids[i], d, levels, w);
        lemma_active_rule_covers_seq(ms, kids, i + 1, d, levels, w);
        let (t1, lv1) = spec_walk(ms, kids[i], d, levels);
        assert(lv1 == levels);
        assert forall|k: int|
            0 <= k < spec_walk_seq(ms, kids, i, d, levels).0.len() implies exists|
            t: Seq<char>,
            l: Seq<int>,
        |
            l.len() == ms.len() && l[w] == levels[w] && #[trigger] spec_walk_seq(
                ms,
                kids,
                i,
                d,
                levels,
            ).0[k] == spec_fold_text(ms, l, 0, t) by {
            if k < t1.len() {
                let (t, l) = choose|t: Seq<char>, l: Seq<int>|
                    l.len() == ms.len() && l[w] == levels[w] && #[trigger] spec_walk(
                        ms,
                        kids[i],
                        d,
                        levels,
                    ).0[k] == spec_fold_text(ms, l, 0, t);
                assert(spec_walk_seq(ms, kids, i, d, levels).0[k] == spec_fold_text(
                    ms,
                    l,
                    0,
                    t,
                ));
            } else {
                let k2 = k - t1.len();
                let (t, l) = choose|t: Seq<char>, l: Seq<int>|
                    l.len() == ms.len() && l[w] == levels[w] && #[trigger] spec_walk_seq(
                        ms,
                        kids,
                        i + 1,
                        d,
                        levels,
                    ).0[k2] == spec_fold_text(ms, l, 0, t);
                assert(spec_walk_seq(ms, kids, i, d, levels).0[k] == spec_fold_text(
                    ms,
                    l,
                    0,
                    t,
                ));
            }
        }
    }
}

/// The usize level values as mathematical integers.
pub open spec fn ints(v: Seq<usize>) -> Seq<int> {
    v.map_values(|x: usize| x as int)
}

/// The new paragraph content extends the old by exactly the given texts.
pub open spec fn emits_ok(
    newp: Seq<InlineElement>,
    oldp: Seq<InlineElement>,
    texts: Seq<Seq<char>>,
) -> bool {
    &&& newp.len() == oldp.len() + texts.len()
    &&& forall|k: int| 0 <= k < oldp.len() ==> newp[k] == oldp[k]
    &&& forall|k: int|
        0 <= k < texts.len() ==> ((#[trigger] newp[oldp.len() + k]) matches InlineElement::Text(t)
            && t@ == texts[k])
}

/// Extending by some texts and then by more extends by their
/// concatenation.
proof fn lemma_emits_trans(
    a: Seq<InlineElement>,
    b: Seq<InlineElement>,
    c: Seq<InlineElement>,
    t1: Seq<Seq<char>>,
    t2: Seq<Seq<char>>,
)
    requires
        emits_ok(b, a, t1),
        emits_ok(c, b, t2),
    ensures
        emits_ok(c, a, t1 + t2),
{
    assert forall|k: int|
        0 <= k < (t1 + t2).len() implies ((#[trigger] c[a.len() + k]) matches InlineElement::Text(
        t,
    ) && t@ == (t1 + t2)[k]) by {
        if k < t1.len() {
            assert(c[a.len() + k] == b[a.len() + k]);
        } else {
            assert((c[b.len() + (k - t1.len())] matches InlineElement::Text(t) && t@ == t2[k
                - t1.len()]));
        }
    }
}

/// Heights are never negative.
proof fn lemma_node_height_nonneg(n: DomNode)
    ensures
        node_height(n) >= 0,
    decreases n, 0int,
{
    match n {
        DomNode::Text(_) => {},
        DomNode::Element { children, .. } => {
            lemma_kids_height_nonneg(children@, 0);
        },
    }
}

/// Heights are never negative.
proof fn lemma_kids_height_nonneg(kids: Seq<DomNode>, i: int)
    ensures
        kids_height(kids, i) >= 0,
    decreases kids, kids.len() - i,
{
    if 0 <= i && i < kids.len() {
        lemma_node_height_nonneg(kids[i]);
        lemma_kids_height_nonneg(kids, i + 1);
    }
}

/// A list of nodes is at least as tall as each of its members.
proof fn lemma_kids_height_bound(kids: Seq<DomNode>, i: int, k: int)
    requires
        0 <= i <= k < kids.len(),
    ensures
        kids_height(kids, i) >= node_height(kids[k]),
    decreases kids.len() - i,
{
    if i < k {
        lemma_kids_height_bound(kids, i + 1, k);
    }
}

/// Applies every active rule to a piece of text, in rule order.
fn fold_text(patterns: &Vec<Sed>, levels: &Vec<usize>, t: String) -> (r: String)
    requires
        seds_wf(patterns@),
        levels@.len() == patterns@.len(),
    ensures
        r@ == spec_fold_text(sed_views(patterns@), ints(levels@), 0, t@),
{
    let ghost ms = sed_views(patterns@);
    let ghost lv = ints(levels@);
    let ghost target = spec_fold_text(ms, lv, 0, t@);
    let mut acc = t;
    let mut i: usize = 0;
    while i < patterns.len()
        invariant
            seds_wf(patterns@),
            ms == sed_views(patterns@),
            lv == ints(levels@),
            ms.len() == patterns@.len(),
            lv.len() == patterns@.len(),
            i <= patterns@.len(),
            spec_fold_text(ms, lv, i as int, acc@) == target,
        decreases patterns@.len() - i,
    {
        proof {
            assert(lv[i as int] == levels@[i as int] as int);
            assert(ms[i as int] == patterns@[i as int]@);
            assert(patterns@[i as int].wf());
        }
        if levels[i] != 0 {
            acc = patterns[i].apply_text(acc.as_str());
        }
        i = i + 1;
    }
    acc
}

/// Walks one node: a text node emits its content folded through the active
/// rules; an element activates matching rules at this depth, walks its
/// children one deeper unless a matching delete rule abandons it, and
/// clears this depth's activations afterwards. Emitted text goes to the
/// chapter builder as plain content.
pub fn walk_node(
    patterns: &Vec<Sed>,
    node: &DomNode,
    depth: usize,
    levels: &mut Vec<usize>,
    ch: &mut ChapterBuilder,
)
    requires
        seds_wf(patterns@),
        node_wf(*node, patterns@.len() as int),
        old(levels)@.len() == patterns@.len(),
        levels_lt(ints(old(levels)@), depth as int),
        1 <= depth,
        depth + node_height(*node) < usize::MAX,
        old(ch).wf(),
        old(ch).span_style_actual == old(ch).span_style,
    ensures
        final(levels)@.len() == patterns@.len(),
        ints(final(levels)@) == spec_walk(
            sed_views(patterns@),
            *node,
            depth as int,
            ints(old(levels)@),
        ).1,
        final(ch).wf(),
        final(ch).span_style_actual == final(ch).span_style,
        final(ch).complete_p == old(ch).complete_p,
        final(ch).title == old(ch).title,
        final(ch).id == old(ch).id,
        final(ch).preserve_line_feeds == old(ch).preserve_line_feeds,
        final(ch).resources_unresolved == old(ch).resources_unresolved,
        final(ch).resources_resolved == old(ch).resources_resolved,
        emits_ok(final(ch).current_p@, old(ch).current_p@, spec_walk(
            sed_views(patterns@),
            *node,
            depth as int,
            ints(old(levels)@),
        ).0),
    decreases *node, 0int,
{
    let ghost ms = sed_views(patterns@);
    let ghost lv0 = ints(levels@);
    match node {
        DomNode::Text(t) => {
            let folded = fold_text(patterns, levels, t.clone());
            ch.add_text(folded);
            proof {
                let texts = spec_walk(ms, *node, depth as int, lv0).0;
                assert(texts =~= seq![spec_fold_text(ms, lv0, 0, t@)]);
                assert(emits_ok(ch.current_p@, old(ch).current_p@, texts));
            }
        },
        DomNode::Element { matches, children, .. } => {
            let ghost target_act = spec_activate(ms, matches@, lv0, depth as int, 0);
            let mut abandoned = false;
            let mut i: usize = 0;
            proof {
                lemma_activate_bounds(ms, matches@, lv0, depth as int, 0);
            }
            while i < patterns.len() && !abandoned
                invariant
                    seds_wf(patterns@),
                    ms == sed_views(patterns@),
                    lv0 == ints(old(levels)@),
                    ms.len() == patterns@.len(),
                    matches@.len() == patterns@.len(),
                    levels@.len() == patterns@.len(),
                    i <= patterns@.len(),
                    1 <= depth,
                    forall|j: int|
                        0 <= j < levels@.len() ==> 0 <= #[trigger] ints(levels@)[j] <= depth,
                    !abandoned ==> spec_activate(
                        ms,
                        matches@,
                        ints(levels@),
                        depth as int,
                        i as int,
                    ) == target_act,
                    abandoned ==> target_act.1 && ints(levels@) == target_act.0,
                decreases patterns@.len() - i, (if abandoned { 0int } else { 1int }),
            {
                let ghost lv_cur = ints(levels@);
                if levels[i] == 0 && matches[i] {
                    proof {
                        assert(lv_cur[i as int] == 0);
                        assert(ms[i as int] == patterns@[i as int]@);
                    }
                    if patterns[i].is_del() {
                        let mut j: usize = 0;
                        while j < levels.len()
                            invariant
                                j <= levels@.len(),
                                levels@.len() == lv_cur.len(),
                                forall|j0: int|
                                    0 <= j0 < j ==> #[trigger] ints(levels@)[j0] == (if lv_cur[j0]
                                        == depth {
                                        0int
                                    } else {
                                        lv_cur[j0]
                                    }),
                                forall|j0: int|
                                    j <= j0 < levels@.len() ==> #[trigger] ints(levels@)[j0]
                                        == lv_cur[j0],
                            decreases levels@.len() - j,
                        {
                            let ghost before = ints(levels@);
                            proof {
                                assert(before[j as int] == levels@[j as int] as int);
                            }
                            if levels[j] == depth {
                                levels.set(j, 0);
                                proof {
                                    assert(ints(levels@) =~= before.update(j as int, 0));
                                }
                            }
                            j = j + 1;
                        }
                        proof {
                            assert(ints(levels@) =~= reset_at(lv_cur, depth as int));
                        }
                        abandoned = true;
                    } else {
                        levels.set(i, depth);
                        proof {
                            assert(ints(levels@) =~= lv_cur.update(i as int, depth as int));
                        }
                    }
                }
                i = i + 1;
            }
            if abandoned {
                proof {
                    assert(spec_walk(ms, *node, depth as int, lv0).0 =~= Seq::<Seq<char>>::empty());
                    assert(emits_ok(ch.current_p@, old(ch).current_p@, Seq::empty()));
                }
                return ;
            }
            let ghost lv1 = ints(levels@);
            proof {
                assert(lv1 == target_act.0);
                assert(levels_lt(lv1, depth as int + 1));
            }
            let ghost walked = spec_walk_seq(ms, children@, 0, depth as int + 1, lv1);
            let ghost p_entry = ch.current_p@;
            let ghost mut done: Seq<Seq<char>> = Seq::empty();
            let mut k: usize = 0;
            proof {
                assert(done + spec_walk_seq(ms, children@, 0, depth as int + 1, lv1).0 =~= walked.0);
            }
            while k < children.len()
                invariant
                    seds_wf(patterns@),
                    ms == sed_views(patterns@),
                    ms.len() == patterns@.len(),
                    levels@.len() == patterns@.len(),
                    k <= children@.len(),
                    1 <= depth,
                    depth + node_height(*node) < usize::MAX,
                    node_wf(*node, patterns@.len() as int),
                    node matches DomNode::Element { children: c2, .. } && c2@ == children@,
                    levels_lt(ints(levels@), depth as int + 1),
                    done + spec_walk_seq(ms, children@, k as int, depth as int + 1, ints(levels@)).0
                        == walked.0,
                    spec_walk_seq(ms, children@, k as int, depth as int + 1, ints(levels@)).1
                        == walked.1,
                    ch.wf(),
                    ch.span_style_actual == ch.span_style,
                    ch.complete_p == old(ch).complete_p,
                    ch.title == old(ch).title,
                    ch.id == old(ch).id,
                    ch.preserve_line_feeds == old(ch).preserve_line_feeds,
                    ch.resources_unresolved == old(ch).resources_unresolved,
                    ch.resources_resolved == old(ch).resources_resolved,
                    emits_ok(ch.current_p@, p_entry, done),
                    p_entry == old(ch).current_p@,
                decreases children@.len() - k,
            {
                proof {
                    assert(node_wf(children@[k as int], patterns@.len() as int));
                    lemma_kids_height_bound(children@, 0, k as int);
                    lemma_node_height_nonneg(children@[k as int]);
                    assert(node_height(*node) == 1 + kids_height(children@, 0));
                    assert(depth as int + 1 + node_height(children@[k as int]) < usize::MAX);
                }
                let ghost lv_before = ints(levels@);
                let ghost p_before = ch.current_p@;
                let ghost step = spec_walk(ms, children@[k as int], depth as int + 1, lv_before);
                walk_node(patterns, &children[k], depth + 1, levels, ch);
                proof {
                    lemma_emits_trans(p_entry, p_before, ch.current_p@, done, step.0);
                    done = done + step.0;
                    assert(done + spec_walk_seq(
                        ms,
                        children@,
                        k as int + 1,
                        depth as int + 1,
                        ints(levels@),
                    ).0 =~= walked.0);
                    lemma_walk_restores(ms, children@[k as int], depth as int + 1, lv_before);
                }
                k = k + 1;
            }
            proof {
                assert(done =~= walked.0);
                assert(ints(levels@) == walked.1);
            }
            let ghost lv2 = ints(levels@);
            let mut j: usize = 0;
            while j < levels.len()
                invariant
                    j <= levels@.len(),
                    levels@.len() == lv2.len(),
                    forall|j0: int|
                        0 <= j0 < j ==> #[trigger] ints(levels@)[j0] == (if lv2[j0] == depth {
                            0int
                        } else {
                            lv2[j0]
                        }),
                    forall|j0: int|
                        j <= j0 < levels@.len() ==> #[trigger] ints(levels@)[j0] == lv2[j0],
                decreases levels@.len() - j,
            {
                let ghost before = ints(levels@);
                proof {
                    assert(before[j as int] == levels@[j as int] as int);
                }
                if levels[j] == depth {
                    levels.set(j, 0);
                    proof {
                        assert(ints(levels@) =~= before.update(j as int, 0));
                    }
                }
                j = j + 1;
            }
            proof {
                assert(ints(levels@) =~= reset_at(lv2, depth as int));
            }
        },
    }
}

} // verus!
