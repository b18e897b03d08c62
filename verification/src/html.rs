//! A tokenizer for HTML: it tells tags from the text between them.

use vstd::prelude::*;
use crate::text::{chars_of, option_view, substring};

verus! {

/// A piece of a document.
#[derive(Debug, PartialEq)]
pub enum Node {
    /// Text outside any tag.
    Text(String),
    /// What stands between `<` and `>`.
    Tag(String),
}

/// What a `Node` holds, as a character sequence.
pub enum NodeView {
    Text(Seq<char>),
    Tag(Seq<char>),
}

impl View for Node {
    type V = NodeView;

    open spec fn view(&self) -> NodeView {
        match self {
            Node::Text(s) => NodeView::Text(s@),
            Node::Tag(s) => NodeView::Tag(s@),
        }
    }
}

/// What a list of nodes holds.
pub open spec fn nodes_view(nodes: Seq<Node>) -> Seq<NodeView> {
    Seq::new(nodes.len(), |i: int| nodes[i]@)
}

/// Where the tokenizer stands: the nodes that are complete, the characters
/// read since the last `<` or `>`, and whether the last of these two was a
/// `<`.
pub struct LexState {
    pub out: Seq<NodeView>,
    pub buffer: Seq<char>,
    pub in_tag: bool,
}

/// What one character does to the tokenizer. A `<` closes the text before
/// it, if there is any, and opens a tag; a `>` closes what was read as a tag,
/// even where that is nothing and no `<` came before; any other character is
/// kept.
pub open spec fn lex_step(state: LexState, c: char) -> LexState {
    if c == '<' {
        LexState {
            out: if state.buffer.len() > 0 {
                state.out.push(NodeView::Text(state.buffer))
            } else {
                state.out
            },
            buffer: Seq::empty(),
            in_tag: true,
        }
    } else if c == '>' {
        LexState {
            out: state.out.push(NodeView::Tag(state.buffer)),
            buffer: Seq::empty(),
            in_tag: false,
        }
    } else {
        LexState { out: state.out, buffer: state.buffer.push(c), in_tag: state.in_tag }
    }
}

/// Where the tokenizer stands after the characters of `s`.
pub open spec fn lex_state(s: Seq<char>) -> LexState
    decreases s.len(),
{
    if s.len() == 0 {
        LexState { out: Seq::empty(), buffer: Seq::empty(), in_tag: false }
    } else {
        lex_step(lex_state(s.drop_last()), s.last())
    }
}

/// The nodes of a document. Text that is left at the end is a node of its
/// own; a tag that is left open is dropped. No document has no nodes.
pub open spec fn lex_spec(body: Option<Seq<char>>) -> Seq<NodeView> {
    match body {
        None => Seq::empty(),
        Some(s) => {
            let end = lex_state(s);
            if !end.in_tag && end.buffer.len() > 0 {
                end.out.push(NodeView::Text(end.buffer))
            } else {
                end.out
            }
        },
    }
}

/// Takes a document apart into tags and text.
pub fn lex(body: Option<String>) -> (out: Vec<Node>)
    ensures
        nodes_view(out@) == lex_spec(option_view(body)),
{
    let mut out: Vec<Node> = Vec::new();
    assert(nodes_view(out@) =~= Seq::<NodeView>::empty());
    let body = match body {
        None => {
            return out;
        },
        Some(body) => body,
    };
    let text = body.as_str();
    let v = chars_of(text);
    let n = v.len();
    let mut start: usize = 0;
    let mut in_tag = false;
    let mut i: usize = 0;
    assert(v@.subrange(0, 0) =~= Seq::<char>::empty());
    while i < n
        invariant
            start <= i <= n,
            n == v.len(),
            v@ == text@,
            lex_state(v@.take(i as int)) == (LexState {
                out: nodes_view(out@),
                buffer: v@.subrange(start as int, i as int),
                in_tag,
            }),
        decreases n - i,
    {
        let c = v[i];
        let ghost before = nodes_view(out@);
        assert(v@.take(i + 1).drop_last() =~= v@.take(i as int));
        if c == '<' {
            in_tag = true;
            if start < i {
                out.push(Node::Text(substring(text, start, i)));
                assert(nodes_view(out@) =~= before.push(
                    NodeView::Text(v@.subrange(start as int, i as int)),
                ));
            }
            start = i + 1;
            assert(v@.subrange(start as int, i + 1) =~= Seq::<char>::empty());
        } else if c == '>' {
            in_tag = false;
            out.push(Node::Tag(substring(text, start, i)));
            assert(nodes_view(out@) =~= before.push(
                NodeView::Tag(v@.subrange(start as int, i as int)),
            ));
            start = i + 1;
            assert(v@.subrange(start as int, i + 1) =~= Seq::<char>::empty());
        } else {
            assert(v@.subrange(start as int, i + 1) =~= v@.subrange(start as int, i as int).push(
                c,
            ));
        }
        i += 1;
    }
    assert(v@.take(n as int) =~= v@);
    if !in_tag && start < n {
        let ghost before = nodes_view(out@);
        out.push(Node::Text(substring(text, start, n)));
        assert(nodes_view(out@) =~= before.push(
            NodeView::Text(v@.subrange(start as int, n as int)),
        ));
    }
    out
}

} // verus!
