//! Walking a tree of statements without recursion: the statements still to
//! be visited wait on a stack, so that the depth of a tree costs memory on
//! the heap and none on the call stack.
use crate::address::Address;
use crate::ir::abstract_syntax_tree::{
    block_shape, mentioned, mentioned_in_block, mentions, shape, shapes, AstStatement,
};
use vstd::prelude::*;

verus! {

/// The number of statements in a tree.
pub open spec fn weight(statement: AstStatement) -> nat
    decreases statement, 0nat,
{
    match statement {
        AstStatement::Function { entry, body } => 1 + weight(*body),
        AstStatement::Block(statements) => 1 + weight_upto(statements@, statements@.len()),
        AstStatement::If { condition, true_statement, else_statement } => 1 + weight(
            *true_statement,
        ) + weight(*else_statement),
        AstStatement::Loop { condition, body } => 1 + weight(*body),
        _ => 1,
    }
}

/// The number of statements in the first `n` trees of a list.
pub open spec fn weight_upto(statements: Seq<AstStatement>, n: nat) -> nat
    decreases statements, n,
{
    if n == 0 || n > statements.len() {
        0
    } else {
        weight_upto(statements, (n - 1) as nat) + weight(statements[n - 1])
    }
}

/// The number of statements in the trees that wait on the stack.
pub open spec fn waiting(stack: Seq<&AstStatement>) -> nat
    decreases stack.len(),
{
    if stack.len() == 0 {
        0
    } else {
        waiting(stack.drop_last()) + weight(*stack.last())
    }
}

/// Whether some tree on the stack holds the effect of the block at
/// `address`.
pub open spec fn waits_for(stack: Seq<&AstStatement>, address: Address) -> bool {
    exists|k: int| 0 <= k < stack.len() && mentions(shape(*#[trigger] stack[k]), address)
}

proof fn pushed(stack: Seq<&AstStatement>, s: &AstStatement, address: Address)
    ensures
        waiting(stack.push(s)) == waiting(stack) + weight(*s),
        waits_for(stack.push(s), address) <==> waits_for(stack, address) || mentions(
            shape(*s),
            address,
        ),
{
    let after = stack.push(s);
    assert(after.drop_last() =~= stack);
    assert(after.last() == s);
    if waits_for(stack, address) {
        let k = choose|k: int| 0 <= k < stack.len() && mentions(shape(*#[trigger] stack[k]), address);
        assert(after[k] == stack[k]);
    }
    if mentions(shape(*s), address) {
        assert(after[stack.len() as int] == s);
    }
    if waits_for(after, address) {
        let k = choose|k: int| 0 <= k < after.len() && mentions(shape(*#[trigger] after[k]), address);
        if k < stack.len() {
            assert(after[k] == stack[k]);
        }
    }
}

proof fn popped(stack: Seq<&AstStatement>, address: Address)
    requires
        stack.len() > 0,
    ensures
        waiting(stack) == waiting(stack.drop_last()) + weight(*stack.last()),
        waits_for(stack, address) <==> waits_for(stack.drop_last(), address) || mentions(
            shape(*stack.last()),
            address,
        ),
{
    let rest = stack.drop_last();
    assert(rest.push(stack.last()) =~= stack);
    pushed(rest, stack.last(), address);
}

proof fn nothing_weighs_nothing(statement: AstStatement)
    ensures
        weight(statement) >= 1,
{
}

proof fn block_mentions(statements: Vec<AstStatement>, address: Address)
    ensures
        mentions(shape(AstStatement::Block(statements)), address) <==> exists|i: int|
            0 <= i < statements@.len() && mentions(shape(#[trigger] statements@[i]), address),
{
    block_shape(statements);
    mentioned_in_block(shapes(statements@), address);
    let views = shapes(statements@);
    if mentioned(views, address) {
        let i = choose|i: int| 0 <= i < views.len() && mentions(#[trigger] views[i], address);
        assert(views[i] == shape(statements@[i]));
    }
    if exists|i: int| 0 <= i < statements@.len() && mentions(shape(#[trigger] statements@[i]), address) {
        let i = choose|i: int|
            0 <= i < statements@.len() && mentions(shape(#[trigger] statements@[i]), address);
        assert(views[i] == shape(statements@[i]));
        assert(mentions(views[i], address));
    }
}

/// Whether the effect of the block at `address` stands somewhere in the
/// tree.
pub fn holds_block(root: &AstStatement, address: Address) -> (found: bool)
    ensures
        found == mentions(shape(*root), address),
{
    let mut stack: Vec<&AstStatement> = Vec::new();
    stack.push(root);
    proof {
        pushed(Seq::empty(), root, address);
        assert(!waits_for(Seq::<&AstStatement>::empty(), address));
    }
    while stack.len() > 0
        invariant
            mentions(shape(*root), address) <==> waits_for(stack@, address),
        decreases waiting(stack@),
    {
        let ghost before = stack@;
        let s = stack.pop().unwrap();
        let ghost rest = stack@;
        proof {
            assert(rest =~= before.drop_last());
            popped(before, address);
            nothing_weighs_nothing(*s);
        }
        match s {
            AstStatement::Basic { address: a, assignments, stores } => {
                if *a == address {
                    return true;
                }
            },
            AstStatement::Function { entry, body } => {
                proof {
                    pushed(rest, body, address);
                }
                stack.push(body);
            },
            AstStatement::Loop { condition, body } => {
                proof {
                    pushed(rest, body, address);
                }
                stack.push(body);
            },
            AstStatement::If { condition, true_statement, else_statement } => {
                proof {
                    pushed(rest, true_statement, address);
                    pushed(rest.push(true_statement), else_statement, address);
                }
                stack.push(true_statement);
                stack.push(else_statement);
            },
            AstStatement::Block(statements) => {
                proof {
                    block_mentions(*statements, address);
                }
                let mut i: usize = 0;
                while i < statements.len()
                    invariant
                        i <= statements@.len(),
                        waiting(stack@) == waiting(rest) + weight_upto(statements@, i as nat),
                        waits_for(stack@, address) <==> waits_for(rest, address) || exists|k: int|
                            0 <= k < i && mentions(shape(#[trigger] statements@[k]), address),
                    decreases statements@.len() - i,
                {
                    proof {
                        pushed(stack@, &statements@[i as int], address);
                    }
                    stack.push(&statements[i]);
                    i += 1;
                }
            },
            _ => {},
        }
    }
    proof {
        assert(!waits_for(stack@, address));
    }
    false
}

} // verus!
