//! Conditional inclusion: which of a list of siblings are materialized,
//! given the `render-if`, `render-else-if` and `render-else` attributes that
//! they carry.

use vstd::prelude::*;
use vstd::string::*;
use crate::const_util::is_input_true_literal;
use crate::error::{parsing_error, Error};
use crate::node::{NodeView, VirtualNode};

verus! {

/// Where a list of siblings stands in a chain of conditions.
#[derive(Debug, Clone, Copy, PartialEq, Eq, Structural)]
pub enum ConditionalState {
    /// No chain is open.
    NotReached,
    /// A condition of the open chain was true.
    MatchedTrue,
    /// No condition of the open chain was true so far.
    MatchedFalse,
}

/// What is decided of one sibling.
pub enum Decision {
    /// Whether it is included, and the state after it.
    Verdict(bool, ConditionalState),
    /// It continues a chain that is not open; the message says how.
    Misplaced(Seq<char>),
}

/// Where a list of siblings stands after some of them.
pub enum Chain {
    /// In this state.
    Open(ConditionalState),
    /// One of them was misplaced; the message says how.
    Broken(Seq<char>),
}

/// The verdict on a condition whose value is `value`: true exactly for the
/// literal `true`.
pub open spec fn judge(value: Seq<char>) -> Decision {
    if value == "true"@ {
        Decision::Verdict(true, ConditionalState::MatchedTrue)
    } else {
        Decision::Verdict(false, ConditionalState::MatchedFalse)
    }
}

/// What is decided of a sibling with the given attributes, in the given
/// state. `render-if` goes before `render-else-if`, and that before
/// `render-else`, where a node carries more than one of them.
pub open spec fn decide(attributes: Map<Seq<char>, Seq<char>>, state: ConditionalState) -> Decision {
    if attributes.contains_key("render-if"@) {
        judge(attributes["render-if"@])
    } else if attributes.contains_key("render-else-if"@) {
        match state {
            ConditionalState::MatchedFalse => judge(attributes["render-else-if"@]),
            ConditionalState::MatchedTrue => Decision::Verdict(false, state),
            ConditionalState::NotReached => Decision::Misplaced(
                "Didn't expect a `render-else-if` attribute."@,
            ),
        }
    } else if attributes.contains_key("render-else"@) {
        match state {
            ConditionalState::MatchedFalse => Decision::Verdict(
                true,
                ConditionalState::NotReached,
            ),
            ConditionalState::MatchedTrue => Decision::Verdict(
                false,
                ConditionalState::NotReached,
            ),
            ConditionalState::NotReached => Decision::Misplaced(
                "Didn't expect a `render-else` attribute."@,
            ),
        }
    } else {
        Decision::Verdict(true, state)
    }
}

/// Where the list stands after the first `n` of `siblings`, starting from
/// `NotReached`. It is broken from the first misplaced sibling on.
pub open spec fn state_after(siblings: Seq<NodeView>, n: int) -> Chain
    decreases n,
{
    if n <= 0 {
        Chain::Open(ConditionalState::NotReached)
    } else {
        match state_after(siblings, n - 1) {
            Chain::Broken(message) => Chain::Broken(message),
            Chain::Open(state) => match decide(siblings[n - 1].attributes, state) {
                Decision::Verdict(_, next) => Chain::Open(next),
                Decision::Misplaced(message) => Chain::Broken(message),
            },
        }
    }
}

/// The positions, in order, of those of the first `n` of `siblings` that are
/// included.
pub open spec fn included(siblings: Seq<NodeView>, n: int) -> Seq<int>
    decreases n,
{
    if n <= 0 {
        Seq::empty()
    } else {
        let before = included(siblings, n - 1);
        match state_after(siblings, n - 1) {
            Chain::Broken(_) => before,
            Chain::Open(state) => match decide(siblings[n - 1].attributes, state) {
                Decision::Verdict(true, _) => before.push(n - 1),
                _ => before,
            },
        }
    }
}

/// The models of `nodes`.
pub open spec fn views_of(nodes: Seq<VirtualNode>) -> Seq<NodeView> {
    Seq::new(nodes.len(), |i: int| nodes[i]@)
}

/// Decides whether `current_root` is rendered, and the state that it leaves
/// for the sibling after it. A `render-else-if` or a `render-else` with no
/// chain open is a `ParsingError`.
pub fn should_node_render(current_root: &VirtualNode, if_state_expr: ConditionalState) -> (res:
    Result<(bool, ConditionalState), Error>)
    requires
        current_root.wf(),
    ensures
        match decide(current_root@.attributes, if_state_expr) {
            Decision::Verdict(render, next) => res == Ok::<(bool, ConditionalState), Error>(
                (render, next),
            ),
            Decision::Misplaced(message) => res is Err && res->Err_0 is ParsingError
                && res->Err_0.message() == message,
        },
{
    let attrs = &current_root.attributes;
    let if_ = attrs.get("render-if");
    let else_if = attrs.get("render-else-if");
    let else_ = attrs.get("render-else");
    if let Some(value) = if_ {
        let res = is_input_true_literal(value.as_str());
        let new_state = if res {
            ConditionalState::MatchedTrue
        } else {
            ConditionalState::MatchedFalse
        };
        Ok((res, new_state))
    } else if let Some(value) = else_if {
        match if_state_expr {
            ConditionalState::MatchedFalse => {
                let res = is_input_true_literal(value.as_str());
                let new_state = if res {
                    ConditionalState::MatchedTrue
                } else {
                    ConditionalState::MatchedFalse
                };
                Ok((res, new_state))
            },
            ConditionalState::MatchedTrue => Ok((false, if_state_expr)),
            ConditionalState::NotReached => Err(
                parsing_error("Didn't expect a `render-else-if` attribute."),
            ),
        }
    } else if else_.is_some() {
        match if_state_expr {
            ConditionalState::MatchedFalse => Ok((true, ConditionalState::NotReached)),
            ConditionalState::MatchedTrue => Ok((false, ConditionalState::NotReached)),
            ConditionalState::NotReached => Err(
                parsing_error("Didn't expect a `render-else` attribute."),
            ),
        }
    } else {
        Ok((true, if_state_expr))
    }
}

/// Picks, in one pass from `NotReached`, the siblings that are materialized.
/// A sibling that continues a chain that is not open fails the whole list
/// with a `ParsingError`; the first such sibling decides the message.
pub fn materialize(siblings: &Vec<VirtualNode>) -> (res: Result<Vec<&VirtualNode>, Error>)
    requires
        forall|i: int| 0 <= i < siblings@.len() ==> (#[trigger] siblings@[i]).wf(),
    ensures
        match state_after(views_of(siblings@), siblings@.len() as int) {
            Chain::Broken(message) => res is Err && res->Err_0 is ParsingError
                && res->Err_0.message() == message,
            Chain::Open(_) => {
                let chosen = included(views_of(siblings@), siblings@.len() as int);
                &&& res is Ok
                &&& res->Ok_0@.len() == chosen.len()
                &&& forall|k: int|
                    0 <= k < chosen.len() ==> 0 <= #[trigger] chosen[k] < siblings@.len()
                        && *res->Ok_0@[k] == siblings@[chosen[k]]
            },
        },
{
    let mut picked: Vec<&VirtualNode> = Vec::new();
    let mut state = ConditionalState::NotReached;
    let mut i: usize = 0;
    while i < siblings.len()
        invariant
            i <= siblings@.len(),
            forall|j: int| 0 <= j < siblings@.len() ==> (#[trigger] siblings@[j]).wf(),
            state_after(views_of(siblings@), i as int) == Chain::Open(state),
            picked@.len() == included(views_of(siblings@), i as int).len(),
            forall|k: int|
                0 <= k < picked@.len() ==> 0 <= #[trigger] included(
                    views_of(siblings@),
                    i as int,
                )[k] < i && *picked@[k] == siblings@[included(views_of(siblings@), i as int)[k]],
        decreases siblings@.len() - i,
    {
        let child = &siblings[i];
        assert(views_of(siblings@)[i as int] == child@);
        match should_node_render(child, state) {
            Ok((should_add, new_state)) => {
                state = new_state;
                if should_add {
                    picked.push(child);
                }
            },
            Err(e) => {
                proof {
                    lemma_misplaced_stays(views_of(siblings@), i + 1, siblings@.len() as int);
                }
                return Err(e);
            },
        }
        i += 1;
    }
    Ok(picked)
}

/// Once a sibling is misplaced, no longer list recovers, and the message
/// stays.
pub proof fn lemma_misplaced_stays(siblings: Seq<NodeView>, n: int, m: int)
    requires
        n <= m,
        state_after(siblings, n) is Broken,
    ensures
        state_after(siblings, m) == state_after(siblings, n),
    decreases m - n,
{
    if n < m {
        lemma_misplaced_stays(siblings, n, m - 1);
    }
}

} // verus!
