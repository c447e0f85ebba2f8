//! A graph as text, for a reader: one line for each vertex, with the
//! vertices that its edges lead to.

use vstd::prelude::*;
use vstd::string::StringExecFns;
use crate::graph::{successor_seq, Graph};

verus! {

/// The character that stands for a digit.
pub open spec fn digit(d: nat) -> char
    recommends
        d < 10,
{
    (48 + d) as char
}

/// A number in decimal notation.
pub open spec fn decimal(n: nat) -> Seq<char>
    decreases n,
{
    if n < 10 {
        seq![digit(n)]
    } else {
        decimal(n / 10).push(digit(n % 10))
    }
}

/// The numbers of `items` in decimal notation, with a comma and a blank
/// between each two.
pub open spec fn joined(items: Seq<u32>) -> Seq<char>
    decreases items.len(),
{
    if items.len() == 0 {
        Seq::empty()
    } else if items.len() == 1 {
        decimal(items[0] as nat)
    } else {
        joined(items.drop_last()) + seq![',', ' '] + decimal(items.last() as nat)
    }
}

/// The line of a vertex: two blanks, the vertex, a colon, and its successors
/// between braces.
pub open spec fn vertex_line(u: u32, successors: Seq<u32>) -> Seq<char> {
    seq![' ', ' '] + decimal(u as nat) + seq![':', ' ', '{'] + joined(successors) + seq![
        '}',
        '\n',
    ]
}

/// The lines of the vertices below `upto`, in their order.
pub open spec fn vertex_lines(edges: Seq<(u32, u32)>, upto: nat) -> Seq<char>
    decreases upto,
{
    if upto == 0 {
        Seq::empty()
    } else {
        let u = (upto - 1) as u32;
        vertex_lines(edges, (upto - 1) as nat) + vertex_line(u, successor_seq(edges, u))
    }
}

/// The listing of the graph on `0..n` with the edge list `edges`: a heading,
/// the line of each vertex, and a closing line.
pub open spec fn listing_text(n: nat, edges: Seq<(u32, u32)>) -> Seq<char> {
    seq!['G', 'r', 'a', 'p', 'h', ' ', '{', '{', '\n'] + vertex_lines(edges, n) + seq!['}', '}']
}

/// Calls `String::push`.
///
/// Trusted: the text is afterwards what it was, with the character added at
/// its end.
#[verifier::external_body]
fn push_char(text: &mut String, c: char)
    ensures
        final(text)@ == old(text)@.push(c),
{
    text.push(c);
}

/// Adds a number, in decimal notation, at the end of `text`.
fn push_decimal(text: &mut String, n: u32)
    ensures
        final(text)@ == old(text)@ + decimal(n as nat),
    decreases n,
{
    if n >= 10 {
        push_decimal(text, n / 10);
    }
    let d: u8 = (n % 10) as u8;
    push_char(text, (48u8 + d) as char);
    proof {
        assert(text@ =~= old(text)@ + decimal(n as nat));
    }
}

/// Adds the numbers of `items` at the end of `text`, with a comma and a
/// blank between each two.
fn push_joined(text: &mut String, items: &Vec<u32>)
    ensures
        final(text)@ == old(text)@ + joined(items@),
{
    let mut j: usize = 0;
    assert(items@.take(0) =~= Seq::<u32>::empty());
    assert(text@ =~= old(text)@ + joined(items@.take(0)));
    while j < items.len()
        invariant
            j <= items@.len(),
            text@ == old(text)@ + joined(items@.take(j as int)),
        decreases items@.len() - j,
    {
        let ghost before = text@;
        if j > 0 {
            text.append(", ");
        }
        push_decimal(text, items[j]);
        proof {
            reveal_strlit(", ");
            let now = items@.take(j + 1);
            assert(now.drop_last() =~= items@.take(j as int));
            assert(now.last() == items@[j as int]);
            if j > 0 {
                assert(", "@ =~= seq![',', ' ']);
            } else {
                assert(now[0] == items@[0]);
            }
            assert(text@ =~= old(text)@ + joined(now));
        }
        j += 1;
    }
    proof {
        assert(items@.take(j as int) =~= items@);
    }
}

impl Graph {
    /// The graph as text: the heading `Graph {{`, then for each vertex, in
    /// the order of the labels, a line such as `  1: {2, 3}` that lists the
    /// vertices to which its edges lead, in the order of the edges, and at
    /// the end `}}`.
    pub fn listing(&self) -> (text: String)
        ensures
            text@ == listing_text(self@.n, self.edge_list()),
    {
        let n = self.n();
        let mut text = String::new();
        text.append("Graph {{\n");
        proof {
            reveal_strlit("Graph {{\n");
            assert(text@ =~= seq!['G', 'r', 'a', 'p', 'h', ' ', '{', '{', '\n'] + vertex_lines(
                self.edge_list(),
                0,
            ));
        }
        let mut u: u32 = 0;
        while u < n
            invariant
                u <= n,
                n == self@.n,
                text@ == seq!['G', 'r', 'a', 'p', 'h', ' ', '{', '{', '\n'] + vertex_lines(
                    self.edge_list(),
                    u as nat,
                ),
            decreases n - u,
        {
            let ghost before = text@;
            let successors = self.successors(u);
            text.append("  ");
            push_decimal(&mut text, u);
            text.append(": {");
            push_joined(&mut text, &successors);
            text.append("}\n");
            proof {
                reveal_strlit("  ");
                reveal_strlit(": {");
                reveal_strlit("}\n");
                assert("  "@ =~= seq![' ', ' ']);
                assert(": {"@ =~= seq![':', ' ', '{']);
                assert("}\n"@ =~= seq!['}', '\n']);
                assert(text@ =~= before + vertex_line(u, successors@));
                assert(text@ =~= seq!['G', 'r', 'a', 'p', 'h', ' ', '{', '{', '\n'] + vertex_lines(
                    self.edge_list(),
                    (u + 1) as nat,
                ));
            }
            u += 1;
        }
        text.append("}}");
        proof {
            reveal_strlit("}}");
            assert("}}"@ =~= seq!['}', '}']);
            assert(text@ =~= listing_text(self@.n, self.edge_list()));
        }
        text
    }
}

} // verus!
