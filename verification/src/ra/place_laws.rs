//! What stands at a place: the constructs that syntax kinds name, and the
//! construct that decides whether the code at a place runs.

use crate::ra::host::{HostView, NodeRecordView};
use crate::ra::kinds::{is_control, shown_kind, NodeKind};
use crate::ra::node_lookup::kind_of_syntax;
use crate::ra::node_rows::climb;
use crate::ra::snapshot_flow::flow_kind;
use vstd::prelude::*;

verus! {

/// The kinds of branches, loops, blocks and arms are all different, and none is
/// one of items.
proof fn lemma_construct_words()
    ensures
        "IF_EXPR"@.len() == 7,
        "TRY_EXPR"@.len() == 8 && "TRY_EXPR"@[0] == 'T',
        "FOR_EXPR"@.len() == 8 && "FOR_EXPR"@[0] == 'F',
        "LOOP_EXPR"@.len() == 9 && "LOOP_EXPR"@[0] == 'L' && "LOOP_EXPR"@[5] == 'E',
        "MATCH_ARM"@.len() == 9 && "MATCH_ARM"@[0] == 'M' && "MATCH_ARM"@[5] == '_',
        "MATCH_EXPR"@.len() == 10 && "MATCH_EXPR"@[0] == 'M' && "MATCH_EXPR"@[1] == 'A'
            && "MATCH_EXPR"@[5] == '_' && "MATCH_EXPR"@[6] == 'E',
        "WHILE_EXPR"@.len() == 10 && "WHILE_EXPR"@[0] == 'W' && "WHILE_EXPR"@[6] == 'E',
        "BLOCK_EXPR"@.len() == 10 && "BLOCK_EXPR"@[0] == 'B' && "BLOCK_EXPR"@[6] == 'E',
{
    reveal_strlit("IF_EXPR");
    reveal_strlit("TRY_EXPR");
    reveal_strlit("FOR_EXPR");
    reveal_strlit("LOOP_EXPR");
    reveal_strlit("MATCH_ARM");
    reveal_strlit("MATCH_EXPR");
    reveal_strlit("WHILE_EXPR");
    reveal_strlit("BLOCK_EXPR");
}

/// Branches, loops, blocks, `?` and arms are each what their syntax kind names,
/// and nothing else is.
pub proof fn law_constructs_are_named_by_their_kind(kind: Seq<char>)
    ensures
        kind_of_syntax(kind) is If <==> kind == "IF_EXPR"@,
        kind_of_syntax(kind) is Match <==> kind == "MATCH_EXPR"@,
        kind_of_syntax(kind) is While <==> kind == "WHILE_EXPR"@,
        kind_of_syntax(kind) is For <==> kind == "FOR_EXPR"@,
        kind_of_syntax(kind) is Loop <==> kind == "LOOP_EXPR"@,
        kind_of_syntax(kind) is Block <==> kind == "BLOCK_EXPR"@,
        kind_of_syntax(kind) is Try <==> kind == "TRY_EXPR"@,
        kind_of_syntax(kind) is Arm <==> kind == "MATCH_ARM"@,
{
    lemma_construct_words();
}

/// A place is under the control of branches and loops, and of nothing else.
pub proof fn law_branches_and_loops_control(kind: Seq<char>)
    ensures
        is_control(kind_of_syntax(kind)) <==> (kind == "IF_EXPR"@ || kind == "MATCH_EXPR"@ || kind
            == "WHILE_EXPR"@ || kind == "FOR_EXPR"@ || kind == "LOOP_EXPR"@),
{
    lemma_construct_words();
}

/// Snapshots and lookups class a construct alike, and snapshots leave out all
/// that is no construct.
pub proof fn law_snapshots_class_constructs_alike(kind: Seq<char>)
    ensures
        match flow_kind(kind) {
            Some(found) => found == kind_of_syntax(kind),
            None => kind_of_syntax(kind) is Item || kind_of_syntax(kind) is Expr
                || kind_of_syntax(kind) is Other,
        },
        flow_kind(kind) is Some <==> (kind == "IF_EXPR"@ || kind == "MATCH_EXPR"@ || kind
            == "WHILE_EXPR"@ || kind == "FOR_EXPR"@ || kind == "LOOP_EXPR"@ || kind
            == "BLOCK_EXPR"@ || kind == "TRY_EXPR"@ || kind == "MATCH_ARM"@),
{
    lemma_construct_words();
}

/// The answers name a construct by the word of its syntax kind.
pub proof fn law_constructs_are_answered_by_their_word(kind: Seq<char>)
    ensures
        ({
            let found = kind_of_syntax(kind);
            let label = shown_kind(found).label();
            &&& (found is If || found is Match || found is While || found is For || found is Loop
                || found is Block || found is Try) ==> label + "_EXPR"@ == kind
            &&& found is Arm ==> "MATCH_"@ + label == kind
            &&& (found is Item || found is Expr || found is Other) ==> label == "OTHER"@
        }),
{
    lemma_construct_words();
    reveal_strlit("_EXPR");
    reveal_strlit("MATCH_");
    reveal_strlit("IF_EXPR");
    reveal_strlit("TRY_EXPR");
    reveal_strlit("FOR_EXPR");
    reveal_strlit("LOOP_EXPR");
    reveal_strlit("MATCH_ARM");
    reveal_strlit("MATCH_EXPR");
    reveal_strlit("WHILE_EXPR");
    reveal_strlit("BLOCK_EXPR");
    reveal_strlit("IF");
    reveal_strlit("TRY");
    reveal_strlit("FOR");
    reveal_strlit("LOOP");
    reveal_strlit("ARM");
    reveal_strlit("MATCH");
    reveal_strlit("WHILE");
    reveal_strlit("BLOCK");
    if kind_of_syntax(kind) is If {
        assert("IF"@ + "_EXPR"@ =~= "IF_EXPR"@);
    } else if kind_of_syntax(kind) is Match {
        assert("MATCH"@ + "_EXPR"@ =~= "MATCH_EXPR"@);
    } else if kind_of_syntax(kind) is While {
        assert("WHILE"@ + "_EXPR"@ =~= "WHILE_EXPR"@);
    } else if kind_of_syntax(kind) is For {
        assert("FOR"@ + "_EXPR"@ =~= "FOR_EXPR"@);
    } else if kind_of_syntax(kind) is Loop {
        assert("LOOP"@ + "_EXPR"@ =~= "LOOP_EXPR"@);
    } else if kind_of_syntax(kind) is Block {
        assert("BLOCK"@ + "_EXPR"@ =~= "BLOCK_EXPR"@);
    } else if kind_of_syntax(kind) is Try {
        assert("TRY"@ + "_EXPR"@ =~= "TRY_EXPR"@);
    } else if kind_of_syntax(kind) is Arm {
        assert("MATCH_"@ + "ARM"@ =~= "MATCH_ARM"@);
    }
}

/// The kind is one of branches and loops.
pub open spec fn decides(kind: NodeKind) -> bool {
    kind == NodeKind::If || kind == NodeKind::Match || kind == NodeKind::While || kind
        == NodeKind::For || kind == NodeKind::Loop
}

/// Each node of the chain is known, and all but the last have the next as their
/// parent.
pub open spec fn is_chain(nodes: Map<u64, NodeRecordView>, chain: Seq<u64>) -> bool {
    &&& chain.len() > 0
    &&& forall|i: int| 0 <= i < chain.len() ==> nodes.contains_key(#[trigger] chain[i])
    &&& forall|i: int|
        0 <= i < chain.len() - 1 ==> nodes[#[trigger] chain[i]].parent == Some(chain[i + 1])
}

/// The chain leads from a node to the first branch or loop that it stands in.
pub open spec fn leads_to_control(nodes: Map<u64, NodeRecordView>, chain: Seq<u64>) -> bool {
    &&& is_chain(nodes, chain)
    &&& decides(nodes[chain.last()].kind)
    &&& forall|i: int| 0 <= i < chain.len() - 1 ==> !decides(nodes[#[trigger] chain[i]].kind)
}

/// The first branch or loop on the way up from a node is the one that is found,
/// with its distance, wherever it is near enough.
pub proof fn law_the_nearest_control_is_found(
    host: HostView,
    chain: Seq<u64>,
    walked: nat,
    budget: nat,
)
    requires
        leads_to_control(host.nodes, chain),
        chain.len() - 1 <= budget,
    ensures
        host.control_from(chain[0], walked, budget) == Some(
            (
                host.nodes[chain.last()].kind,
                host.nodes[chain.last()].span,
                (walked + chain.len() - 1) as nat,
            ),
        ),
        climb(host.nodes, chain[0], walked, budget) == host.control_from(
            chain[0],
            walked,
            budget,
        ),
    decreases chain.len(),
{
    assert(host.nodes.contains_key(chain[0]));
    if chain.len() > 1 {
        let rest = chain.drop_first();
        assert(host.nodes[chain[0]].parent == Some(chain[1]));
        assert forall|i: int| 0 <= i < rest.len() implies host.nodes.contains_key(
            #[trigger] rest[i],
        ) by {
            assert(rest[i] == chain[i + 1]);
        }
        assert forall|i: int| 0 <= i < rest.len() - 1 implies host.nodes[#[trigger] rest[i]].parent
            == Some(rest[i + 1]) && !decides(host.nodes[rest[i]].kind) by {
            assert(rest[i] == chain[i + 1]);
            assert(chain[i + 1 + 1] == rest[i + 1]);
        }
        assert(rest.last() == chain.last());
        law_the_nearest_control_is_found(host, rest, walked + 1, (budget - 1) as nat);
    }
}

/// What is found is a branch or a loop on the way up from the node, the first one,
/// and no further away than asked.
pub proof fn law_found_controls_are_the_nearest(
    host: HostView,
    node: u64,
    walked: nat,
    budget: nat,
) -> (chain: Seq<u64>)
    requires
        host.control_from(node, walked, budget) is Some,
    ensures
        leads_to_control(host.nodes, chain),
        chain[0] == node,
        chain.len() - 1 <= budget,
        host.control_from(node, walked, budget)->0 == (
            host.nodes[chain.last()].kind,
            host.nodes[chain.last()].span,
            (walked + chain.len() - 1) as nat,
        ),
    decreases budget,
{
    if decides(host.nodes[node].kind) {
        seq![node]
    } else {
        let parent = host.nodes[node].parent->0;
        let above = law_found_controls_are_the_nearest(
            host,
            parent,
            walked + 1,
            (budget - 1) as nat,
        );
        let chain = seq![node] + above;
        assert forall|i: int| 0 <= i < chain.len() implies host.nodes.contains_key(
            #[trigger] chain[i],
        ) by {
            if i > 0 {
                assert(chain[i] == above[i - 1]);
            }
        }
        assert forall|i: int| 0 <= i < chain.len() - 1 implies host.nodes[#[trigger] chain[i]].parent
            == Some(chain[i + 1]) && !decides(host.nodes[chain[i]].kind) by {
            assert(chain[i + 1] == above[i]);
            if i > 0 {
                assert(chain[i] == above[i - 1]);
                assert(above[i - 1 + 1] == above[i]);
            }
        }
        assert(chain.last() == above.last());
        chain
    }
}

} // verus!
