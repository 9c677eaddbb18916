//! The move tree of a PGN game: nodes in one vector, each listing its continuations by index
//! (the main line first, then the variations).
use vstd::prelude::*;
use crate::types::{Move, MoveFlag, Piece};
use crate::types::square::sq_file;
use crate::san::san_text;
use crate::text::{push_char, push_string, push_decimal, decimal};

verus! {

/// A move of the tree with its annotation and NAG.
#[derive(Clone, Debug)]
pub struct PgnMoveData {
    /// The move.
    pub move_: Move,
    /// Textual annotation such as `!?`.
    pub annotation: Option<String>,
    /// Numeric Annotation Glyph.
    pub nag: Option<u8>,
}

/// The SAN of the move followed by its annotation and " $" with its NAG, as far as they are
/// present and included.
pub open spec fn move_data_text(
    d: PgnMoveData,
    moved_piece: Piece,
    dis: Seq<char>,
    is_check: bool,
    is_checkmate: bool,
    is_capture: bool,
    include_annotations: bool,
    include_nags: bool,
) -> Seq<char> {
    san_text(d.move_, moved_piece, dis, is_check, is_checkmate, is_capture) + (if include_annotations
        && d.annotation is Some {
        d.annotation->0@
    } else {
        Seq::empty()
    }) + (if include_nags && d.nag is Some {
        seq![' ', '$'] + decimal(d.nag->0 as nat)
    } else {
        Seq::empty()
    })
}

/// The move can be written in SAN: a castling move goes to file c or g, any other move names a
/// piece.
pub open spec fn san_writable(m: Move, moved_piece: Piece) -> bool {
    &&& m.flag_spec() == MoveFlag::Castling ==> sq_file(m.to_spec().idx()) == 6 || sq_file(
        m.to_spec().idx(),
    ) == 2
    &&& m.flag_spec() != MoveFlag::Castling ==> moved_piece != Piece::Null
}

impl PgnMoveData {
    /// Renders the move in SAN with its annotation and NAG as far as they are included.
    pub fn render(
        &self,
        moved_piece: Piece,
        disambiguation_str: &str,
        is_check: bool,
        is_checkmate: bool,
        is_capture: bool,
        include_annotations: bool,
        include_nags: bool,
    ) -> (r: String)
        requires
            san_writable(self.move_, moved_piece),
        ensures
            r@ == move_data_text(
                *self,
                moved_piece,
                disambiguation_str@,
                is_check,
                is_checkmate,
                is_capture,
                include_annotations,
                include_nags,
            ),
    {
        let mut result = self.move_.san(
            moved_piece,
            disambiguation_str,
            is_check,
            is_checkmate,
            is_capture,
        );
        let ghost e0 = result@;
        if include_annotations {
            match &self.annotation {
                Some(a) => push_string(&mut result, a),
                None => {},
            }
        }
        let ghost e1 = result@;
        if include_nags {
            match self.nag {
                Some(n) => {
                    push_char(&mut result, ' ');
                    push_char(&mut result, '$');
                    push_decimal(&mut result, n as u16);
                },
                None => {},
            }
        }
        proof {
            assert(e1 =~= e0 + (if include_annotations && self.annotation is Some {
                self.annotation->0@
            } else {
                Seq::<char>::empty()
            }));
            assert(result@ =~= e1 + (if include_nags && self.nag is Some {
                seq![' ', '$'] + decimal(self.nag->0 as nat)
            } else {
                Seq::<char>::empty()
            }));
        }
        result
    }
}

/// A node of the move tree: the move that leads to it (none at the root), a comment, and its
/// continuations (main line first).
#[derive(Clone, Debug)]
pub struct MoveTreeNode {
    /// The move played to reach this node (`None` at the root).
    pub move_data: Option<PgnMoveData>,
    /// A comment on the node.
    pub comment: Option<String>,
    /// Indices of the continuations, main line first.
    pub continuations: Vec<usize>,
}

impl MoveTreeNode {
    /// A root node with an optional comment.
    pub fn new_root(comment: Option<String>) -> (r: MoveTreeNode)
        ensures
            r.move_data is None,
            r.comment == comment,
            r.continuations@ == Seq::<usize>::empty(),
    {
        MoveTreeNode { move_data: None, comment, continuations: Vec::new() }
    }

    /// A node reached by the move `move_data`.
    pub fn new(move_data: PgnMoveData, comment: Option<String>) -> (r: MoveTreeNode)
        ensures
            r.move_data == Some(move_data),
            r.comment == comment,
            r.continuations@ == Seq::<usize>::empty(),
    {
        MoveTreeNode { move_data: Some(move_data), comment, continuations: Vec::new() }
    }

    /// Appends `continuation` to the continuations.
    pub fn add_continuation(&mut self, continuation: usize)
        ensures
            final(self).continuations@ == old(self).continuations@.push(continuation),
            final(self).move_data == old(self).move_data,
            final(self).comment == old(self).comment,
    {
        self.continuations.push(continuation);
    }

    /// Whether the node has a continuation.
    pub fn has_continuations(&self) -> (r: bool)
        ensures
            r == (self.continuations@.len() > 0),
    {
        self.continuations.len() > 0
    }

    /// The main continuation, if any.
    pub fn get_main_continuation(&self) -> (r: Option<usize>)
        ensures
            r == (if self.continuations@.len() > 0 {
                Some(self.continuations@[0])
            } else {
                None
            }),
    {
        if self.continuations.len() > 0 {
            Some(self.continuations[0])
        } else {
            None
        }
    }

    /// The continuations after the main one.
    pub fn get_alternative_continuations(&self) -> (r: Vec<usize>)
        ensures
            r@ == (if self.continuations@.len() > 0 {
                self.continuations@.subrange(1, self.continuations@.len() as int)
            } else {
                Seq::<usize>::empty()
            }),
    {
        let mut r: Vec<usize> = Vec::new();
        if self.continuations.len() == 0 {
            return r;
        }
        let mut i: usize = 1;
        while i < self.continuations.len()
            invariant
                1 <= i <= self.continuations.len(),
                r@ == self.continuations@.subrange(1, i as int),
            decreases self.continuations.len() - i,
        {
            r.push(self.continuations[i]);
            proof {
                assert(self.continuations@.subrange(1, i + 1) == self.continuations@.subrange(1, i as int).push(self.continuations@[i as int]));
            }
            i = i + 1;
        }
        r
    }
}

/// The nodes of a game, the root at index 0.
#[derive(Clone, Debug)]
pub struct MoveTree {
    /// All nodes; each continuation index points to a later node.
    pub nodes: Vec<MoveTreeNode>,
}

impl MoveTree {
    /// The root has no move, and every node's continuations point to later nodes, in increasing
    /// order.
    pub open spec fn wf(&self) -> bool {
        &&& self.nodes@.len() >= 1
        &&& self.nodes@[0].move_data is None
        &&& forall|i: int| 0 <= i < self.nodes@.len() ==> #[trigger] self.children_ok(i)
        &&& self.unique_parents()
    }

    /// No node is listed twice as a continuation.
    pub open spec fn unique_parents(&self) -> bool {
        forall|i: int, k: int, j: int, l: int|
            0 <= i < self.nodes@.len() && 0 <= j < self.nodes@.len() && 0 <= k < self.nodes@[i].continuations@.len()
                && 0 <= l < self.nodes@[j].continuations@.len() && #[trigger] self.nodes@[i].continuations@[k]
                == #[trigger] self.nodes@[j].continuations@[l] ==> i == j && k == l
    }

    /// The continuations of node `i` point to later nodes, in increasing order.
    pub open spec fn children_ok(&self, i: int) -> bool {
        let c = self.nodes@[i].continuations@;
        &&& forall|k: int| 0 <= k < c.len() ==> i < #[trigger] c[k] < self.nodes@.len()
        &&& forall|j: int, k: int| 0 <= j < k < c.len() ==> #[trigger] c[j] < #[trigger] c[k]
        &&& (i > 0 ==> self.nodes@[i].move_data is Some)
    }

    /// A tree holding only a root with an optional comment.
    pub fn new(comment: Option<String>) -> (t: MoveTree)
        ensures
            t.wf(),
            t.nodes@.len() == 1,
            t.nodes@[0].comment == comment,
            t.nodes@[0].continuations@.len() == 0,
    {
        let mut nodes: Vec<MoveTreeNode> = Vec::new();
        nodes.push(MoveTreeNode::new_root(comment));
        let t = MoveTree { nodes };
        proof {
            assert(t.children_ok(0));
        }
        t
    }

    /// Adds a node reached from `parent` by `move_data` as the last continuation of `parent`,
    /// and returns its index.
    pub fn append_child(&mut self, parent: usize, move_data: PgnMoveData) -> (n: usize)
        requires
            old(self).wf(),
            parent < old(self).nodes@.len(),
            old(self).nodes@.len() < usize::MAX,
        ensures
            final(self).wf(),
            n == old(self).nodes@.len(),
            final(self).nodes@.len() == n + 1,
            final(self).nodes@[n as int].move_data == Some(move_data),
            final(self).nodes@[n as int].comment is None,
            final(self).nodes@[n as int].continuations@.len() == 0,
            final(self).nodes@[parent as int].continuations@ == old(self).nodes@[parent as int].continuations@.push(n),
            final(self).nodes@[parent as int].move_data == old(self).nodes@[parent as int].move_data,
            final(self).nodes@[parent as int].comment == old(self).nodes@[parent as int].comment,
            forall|i: int| 0 <= i < n && i != parent ==> #[trigger] final(self).nodes@[i] == old(self).nodes@[i],
    {
        let n = self.nodes.len();
        let ghost old_nodes = self.nodes@;
        self.nodes.push(MoveTreeNode::new(move_data, None));
        self.nodes[parent].add_continuation(n);
        proof {
            assert forall|i: int| 0 <= i < self.nodes@.len() implies #[trigger] self.children_ok(i) by {
                if i < n {
                    assert(old(self).children_ok(i));
                    if i == parent {
                        let c = self.nodes@[i].continuations@;
                        let c0 = old_nodes[i].continuations@;
                        assert forall|j: int, k: int| 0 <= j < k < c.len() implies #[trigger] c[j] < #[trigger] c[k] by {
                            assert(c[j] == c0[j]);
                            if k < c.len() - 1 {
                                assert(c[k] == c0[k]);
                            }
                        }
                    }
                } else {
                    assert(self.nodes@[i].continuations@.len() == 0);
                }
            }
            assert forall|i: int, k: int, j: int, l: int|
                0 <= i < self.nodes@.len() && 0 <= j < self.nodes@.len() && 0 <= k < self.nodes@[i].continuations@.len()
                    && 0 <= l < self.nodes@[j].continuations@.len() && #[trigger] self.nodes@[i].continuations@[k]
                    == #[trigger] self.nodes@[j].continuations@[l] implies i == j && k == l by {
                assert(old(self).children_ok(parent as int));
                if i < n && j < n {
                    assert(old(self).children_ok(i));
                    assert(old(self).children_ok(j));
                    let ci = self.nodes@[i].continuations@;
                    let cj = self.nodes@[j].continuations@;
                    if i == parent && k == ci.len() - 1 {
                        if !(j == parent && l == cj.len() - 1) {
                            assert(cj[l] == old_nodes[j].continuations@[l]);
                        }
                    } else if j == parent && l == cj.len() - 1 {
                        assert(ci[k] == old_nodes[i].continuations@[k]);
                    } else {
                        assert(ci[k] == old_nodes[i].continuations@[k]);
                        assert(cj[l] == old_nodes[j].continuations@[l]);
                    }
                }
            }
        }
        n
    }
}

} // verus!
