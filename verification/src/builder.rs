use vstd::prelude::*;

use crate::cst::{
    Element, Node, Token, TreeEvent, elem_events, elem_text, elems_events, elems_text,
    lemma_elems_events_push, lemma_elems_text_push, node_text, tree_events,
};
use crate::syntax::SyntaxKind;
use vstd::string::StrSliceExecFns;

verus! {

/// A node that has been opened but not finished yet.
pub struct Frame {
    pub kind: SyntaxKind,
    pub start: usize,
    pub children: Vec<Element>,
}

/// The text of the first `k` frames' children, in order.
pub open spec fn frames_text(fs: Seq<Frame>, k: int) -> Seq<char>
    decreases k,
{
    if k <= 0 || k > fs.len() {
        Seq::empty()
    } else {
        frames_text(fs, k - 1) + elems_text(fs[k - 1].children@, fs[k - 1].children@.len() as int)
    }
}

pub proof fn lemma_frames_text_prefix(fs: Seq<Frame>, gs: Seq<Frame>, k: int)
    requires
        0 <= k <= fs.len(),
        k <= gs.len(),
        forall|i: int| 0 <= i < k ==> fs[i] == gs[i],
    ensures
        frames_text(fs, k) == frames_text(gs, k),
    decreases k,
{
    if k > 0 {
        lemma_frames_text_prefix(fs, gs, k - 1);
    }
}

/// An open node written out as events: its opening, then its children so far.
pub open spec fn frame_events(f: Frame) -> Seq<TreeEvent> {
    seq![TreeEvent::Open(f.kind, f.start as int)] + elems_events(f.children@, f.children@.len() as int)
}

/// The events of the first `k` open nodes, outermost first.
pub open spec fn frames_events(fs: Seq<Frame>, k: int) -> Seq<TreeEvent>
    decreases k,
{
    if k <= 0 || k > fs.len() {
        Seq::empty()
    } else {
        frames_events(fs, k - 1) + frame_events(fs[k - 1])
    }
}

pub proof fn lemma_frames_events_prefix(fs: Seq<Frame>, gs: Seq<Frame>, k: int)
    requires
        0 <= k <= fs.len(),
        k <= gs.len(),
        forall|i: int| 0 <= i < k ==> fs[i] == gs[i],
    ensures
        frames_events(fs, k) == frames_events(gs, k),
    decreases k,
{
    if k > 0 {
        lemma_frames_events_prefix(fs, gs, k - 1);
    }
}

/// Builds a tree from a balanced sequence of "start node", "token" and
/// "finish node" events.
pub struct Builder {
    stack: Vec<Frame>,
    done: Option<Node>,
    emitted: usize,
}

impl Builder {
    pub closed spec fn depth(&self) -> nat {
        self.stack@.len()
    }

    pub closed spec fn is_done(&self) -> bool {
        self.done is Some
    }

    pub closed spec fn result(&self) -> Node {
        self.done.unwrap()
    }

    /// Number of characters emitted so far.
    pub closed spec fn emitted(&self) -> nat {
        self.emitted as nat
    }

    /// The text of everything emitted so far.
    pub closed spec fn text(&self) -> Seq<char> {
        let done_text = match self.done {
            Some(n) => node_text(n),
            None => Seq::empty(),
        };
        done_text + frames_text(self.stack@, self.stack@.len() as int)
    }

    /// Everything handed to the builder so far, as events.
    pub closed spec fn events(&self) -> Seq<TreeEvent> {
        let done_events = match self.done {
            Some(n) => tree_events(n),
            None => Seq::empty(),
        };
        done_events + frames_events(self.stack@, self.stack@.len() as int)
    }

    pub closed spec fn wf(&self) -> bool {
        &&& self.emitted as nat == self.text().len()
        &&& self.stack@.len() > 0 ==> self.done is None
        &&& self.done matches Some(n) ==> n.kind == SyntaxKind::Root && n.start == 0
            && n.end == self.emitted
        &&& self.stack@.len() > 0 ==> self.stack@[0].kind == SyntaxKind::Root
            && self.stack@[0].start == 0
    }

    pub fn new() -> (b: Self)
        ensures
            b.wf(),
            b.depth() == 0,
            !b.is_done(),
            b.text() == Seq::<char>::empty(),
            b.emitted() == 0,
            b.events() == Seq::<TreeEvent>::empty(),
    {
        let b = Builder { stack: Vec::new(), done: None, emitted: 0 };
        assert(b.text() =~= Seq::<char>::empty());
        assert(b.events() =~= Seq::<TreeEvent>::empty());
        b
    }

    /// Open a node of kind `kind`. Only a `Root` node may be opened at depth zero.
    pub fn start_node(&mut self, kind: SyntaxKind)
        requires
            old(self).wf(),
            !old(self).is_done(),
            old(self).depth() == 0 ==> kind == SyntaxKind::Root,
        ensures
            final(self).wf(),
            final(self).depth() == old(self).depth() + 1,
            !final(self).is_done(),
            final(self).text() == old(self).text(),
            final(self).emitted() == old(self).emitted(),
            final(self).events() == old(self).events().push(TreeEvent::Open(kind, old(self).emitted() as int)),
    {
        let ghost fs = self.stack@;
        let ghost start_root = self.depth() == 0;
        proof {
            if self.depth() == 0 {
                assert(self.emitted == 0) by {
                    assert(self.text() =~= Seq::<char>::empty());
                }
            }
        }
        self.stack.push(Frame { kind, start: self.emitted, children: Vec::new() });
        proof {
            lemma_frames_text_prefix(fs, self.stack@, fs.len() as int);
            assert(elems_text(self.stack@[fs.len() as int].children@, 0) =~= Seq::<char>::empty());
            assert(frames_text(self.stack@, self.stack@.len() as int) =~= frames_text(fs, fs.len() as int));
            lemma_frames_events_prefix(fs, self.stack@, fs.len() as int);
            assert(elems_events(self.stack@[fs.len() as int].children@, 0) =~= Seq::<TreeEvent>::empty());
            assert(frame_events(self.stack@[fs.len() as int]) =~= seq![TreeEvent::Open(kind, old(self).emitted() as int)]);
            assert(self.events() =~= old(self).events().push(TreeEvent::Open(kind, old(self).emitted() as int)));
        }
    }

    /// Append a token to the innermost open node.
    pub fn token(&mut self, kind: SyntaxKind, text: String)
        requires
            old(self).wf(),
            old(self).depth() > 0,
            old(self).emitted() + text@.len() <= usize::MAX,
        ensures
            final(self).wf(),
            final(self).depth() == old(self).depth(),
            !final(self).is_done(),
            final(self).text() == old(self).text() + text@,
            final(self).emitted() == old(self).emitted() + text@.len(),
            final(self).events() == old(self).events().push(
                TreeEvent::Leaf(kind, old(self).emitted() as int, text@),
            ),
    {
        let ghost fs = self.stack@;
        let ghost t = text@;
        let n = self.stack.len();
        let len = text_len(&text);
        let tok = Token { kind, text, start: self.emitted };
        let mut top = self.stack.pop().unwrap();
        let ghost old_children = top.children@;
        top.children.push(Element::Token(tok));
        self.stack.push(top);
        self.emitted = self.emitted + len;
        proof {
            lemma_elems_text_push(old_children, Element::Token(tok));
            lemma_frames_text_prefix(fs, self.stack@, n - 1);
            assert(frames_text(self.stack@, n as int) == frames_text(fs, n - 1) + elems_text(old_children, old_children.len() as int) + t);
            assert(frames_text(fs, n as int) == frames_text(fs, n - 1) + elems_text(old_children, old_children.len() as int));
            assert(self.text() =~= old(self).text() + t);
            lemma_elems_events_push(old_children, Element::Token(tok));
            lemma_frames_events_prefix(fs, self.stack@, n - 1);
            assert(elem_events(Element::Token(tok)) == seq![TreeEvent::Leaf(kind, old(self).emitted() as int, t)]);
            assert(frame_events(self.stack@[n - 1]) =~= frame_events(fs[n - 1]).push(TreeEvent::Leaf(kind, old(self).emitted() as int, t)));
            assert(frames_events(self.stack@, n as int) =~= frames_events(fs, n as int).push(TreeEvent::Leaf(kind, old(self).emitted() as int, t)));
            assert(self.events() =~= old(self).events().push(TreeEvent::Leaf(kind, old(self).emitted() as int, t)));
        }
    }

    /// Close the innermost open node, adding it to its parent (or making it
    /// the finished tree, when it is the outermost one).
    pub fn finish_node(&mut self)
        requires
            old(self).wf(),
            old(self).depth() > 0,
        ensures
            final(self).wf(),
            final(self).depth() == old(self).depth() - 1,
            final(self).is_done() == (old(self).depth() == 1),
            final(self).text() == old(self).text(),
            final(self).emitted() == old(self).emitted(),
            final(self).events() == old(self).events().push(TreeEvent::Close(old(self).emitted() as int)),
    {
        let ghost fs = self.stack@;
        let n = self.stack.len();
        let top = self.stack.pop().unwrap();
        let node = Node { kind: top.kind, start: top.start, end: self.emitted, children: top.children };
        proof {
            assert(elem_text(Element::Node(node)) == elems_text(fs[n - 1].children@, fs[n - 1].children@.len() as int));
            assert(elem_events(Element::Node(node)) =~= frame_events(fs[n - 1]).push(TreeEvent::Close(old(self).emitted() as int)));
        }
        if n == 1 {
            proof {
                assert(self.stack@.len() == 0);
                assert(frames_text(fs, 1) =~= frames_text(fs, 0) + node_text(node));
                assert(frames_text(fs, 0) =~= Seq::<char>::empty());
                assert(frames_text(self.stack@, 0) =~= Seq::<char>::empty());
            }
            self.done = Some(node);
            proof {
                assert(self.text() =~= old(self).text());
                assert(frames_events(fs, 0) =~= Seq::<TreeEvent>::empty());
                assert(frames_events(fs, 1) =~= frame_events(fs[0]));
                assert(frames_events(self.stack@, 0) =~= Seq::<TreeEvent>::empty());
                assert(self.events() =~= old(self).events().push(TreeEvent::Close(old(self).emitted() as int)));
            }
        } else {
            let ghost mid = self.stack@;
            let mut parent = self.stack.pop().unwrap();
            let ghost old_children = parent.children@;
            parent.children.push(Element::Node(node));
            self.stack.push(parent);
            proof {
                lemma_elems_text_push(old_children, Element::Node(node));
                lemma_frames_text_prefix(fs, self.stack@, n - 2);
                assert(frames_text(self.stack@, n - 1) == frames_text(fs, n - 2) + elems_text(old_children, old_children.len() as int) + node_text(node));
                assert(old_children == fs[n - 2].children@);
                assert(frames_text(fs, n - 1) == frames_text(fs, n - 2) + elems_text(old_children, old_children.len() as int));
                assert(frames_text(fs, n as int) == frames_text(fs, n - 1) + node_text(node));
                assert(frames_text(fs, n as int) =~= frames_text(fs, n - 2) + elems_text(old_children, old_children.len() as int) + node_text(node));
                assert(self.text() =~= old(self).text());
                lemma_elems_events_push(old_children, Element::Node(node));
                lemma_frames_events_prefix(fs, self.stack@, n - 2);
                assert(frame_events(self.stack@[n - 2]) =~= frame_events(fs[n - 2]) + elem_events(Element::Node(node)));
                assert(frames_events(self.stack@, n - 1) == frames_events(fs, n - 2) + frame_events(self.stack@[n - 2]));
                assert(frames_events(fs, n - 1) == frames_events(fs, n - 2) + frame_events(fs[n - 2]));
                assert(frames_events(fs, n as int) == frames_events(fs, n - 1) + frame_events(fs[n - 1]));
                assert(self.events() =~= old(self).events().push(TreeEvent::Close(old(self).emitted() as int)));
            }
        }
    }

    /// The finished tree.
    pub fn finish(self) -> (n: Node)
        requires
            self.wf(),
            self.is_done(),
        ensures
            n == self.result(),
            node_text(n) == self.text(),
            n.kind == SyntaxKind::Root,
            n.start == 0,
            n.end == self.emitted(),
            tree_events(n) == self.events(),
    {
        proof {
            assert(frames_events(self.stack@, self.stack@.len() as int) =~= Seq::<TreeEvent>::empty());
            assert(self.events() =~= tree_events(self.done.unwrap()));
            assert(self.stack@.len() == 0 || self.done is None);
            assert(frames_text(self.stack@, self.stack@.len() as int) =~= Seq::<char>::empty());
            assert(self.text() =~= node_text(self.done.unwrap()));
        }
        self.done.unwrap()
    }
}

/// Number of characters in a string.
pub fn text_len(s: &String) -> (r: usize)
    ensures
        r == s@.len(),
{
    s.as_str().unicode_len()
}

} // verus!
