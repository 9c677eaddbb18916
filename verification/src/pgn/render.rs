//! Writing a move tree back as PGN move text.
use vstd::prelude::*;
use crate::bitboard::{count_squares, pop};
use crate::types::{Color, Move, MoveFlag, MoveList, Piece, Square};
use crate::types::square::{sq_file, sq_rank};
use crate::position::state::Position;
use crate::position::pins::kings_of;
use crate::position::perft::searchable;
use crate::position::make_move::{move_ok, after_piece};
use crate::board::Board;
use crate::san::file_letter;
use crate::pgn::object::{PgnObject, tags_text, tag_entries};
use crate::position::move_generation::{gen_ok, is_legal, safety_grounded, sound_position, lemma_legal_move_keeps_grounded};
use crate::san::square_text;
use crate::text::{push_char, push_string, push_decimal, decimal};
use crate::pgn::rendering_config::PgnRenderingConfig;
use crate::pgn::moves::char_index;
use crate::pgn::tree::{MoveTree, PgnMoveData, move_data_text, san_writable};

verus! {

/// What is written for the move of one node.
#[derive(Clone, Debug)]
pub struct NodeText {
    /// The move could be played from its position (it is among the moves generated there).
    pub playable: bool,
    /// White made the move.
    pub white_moved: bool,
    /// The fullmove number of the position the move was made from.
    pub fullmove: u16,
    /// The move in SAN with its annotation and NAG.
    pub text: String,
}

/// The move number written before a move: "N. " before White's move, "N... " before Black's
/// when the number has to be recalled, nothing otherwise.
pub open spec fn number_text(t: NodeText, remind: bool) -> Seq<char> {
    if t.white_moved {
        decimal(t.fullmove as nat) + seq!['.', ' ']
    } else if remind {
        decimal(t.fullmove as nat) + seq!['.', '.', '.', ' ']
    } else {
        Seq::empty()
    }
}

/// A node's comment as written: " { comment }", when comments are included.
pub open spec fn comment_text(c: Option<String>, comments: bool) -> Seq<char> {
    if comments && c is Some {
        seq![' ', '{', ' '] + c->0@ + seq![' ', '}']
    } else {
        Seq::empty()
    }
}

/// The text of node `n` and its line: its move (with its number), its comment, the
/// variations `last` that replace its move (each in parentheses), then, after a space, the
/// main continuation with the other continuations as its variations (when variations are
/// included). A move that cannot be played ends its line.
pub open spec fn tree_text(
    t: MoveTree,
    texts: Seq<NodeText>,
    n: int,
    last: Seq<usize>,
    remind: bool,
    vars: bool,
    comments: bool,
) -> Seq<char>
    decreases t.nodes@.len() - n, last.len() + 1,
{
    if 0 <= n < t.nodes@.len() {
        let node = t.nodes@[n];
        let moved = node.move_data is Some;
        let goes_on = !moved || texts[n].playable;
        let rm = if moved && texts[n].playable {
            number_text(texts[n], remind) + texts[n].text@
        } else {
            Seq::empty()
        };
        let u = rm + comment_text(node.comment, comments) + variations_text(
            t,
            texts,
            n,
            last,
            0,
            vars,
            comments,
        );
        let c = node.continuations@;
        if c.len() > 0 && goes_on {
            let alts = if vars {
                c.subrange(1, c.len() as int)
            } else {
                Seq::empty()
            };
            let main = if n < c[0] < t.nodes@.len() {
                tree_text(t, texts, c[0] as int, alts, last.len() > 0, vars, comments)
            } else {
                Seq::empty()
            };
            if u.len() == 0 {
                main
            } else {
                u + seq![' '] + main
            }
        } else {
            u
        }
    } else {
        Seq::empty()
    }
}

/// The variations `last[i..]` of node `n`, each as " (" line ")".
pub open spec fn variations_text(
    t: MoveTree,
    texts: Seq<NodeText>,
    n: int,
    last: Seq<usize>,
    i: int,
    vars: bool,
    comments: bool,
) -> Seq<char>
    decreases t.nodes@.len() - n, last.len() - i,
{
    if 0 <= i < last.len() && 0 <= n < t.nodes@.len() {
        let c = last[i] as int;
        let line = if n < c < t.nodes@.len() {
            tree_text(t, texts, c, Seq::empty(), true, vars, comments)
        } else {
            Seq::empty()
        };
        seq![' ', '('] + line + seq![')'] + variations_text(t, texts, n, last, i + 1, vars, comments)
    } else {
        Seq::empty()
    }
}

impl MoveTree {
    /// Writes node `n` and its line (see `tree_text`).
    #[verifier::spinoff_prover]
    #[verifier::rlimit(40)]
    pub fn render_node(
        &self,
        texts: &Vec<NodeText>,
        n: usize,
        last: &Vec<usize>,
        remind: bool,
        include_variations: bool,
        config: PgnRenderingConfig,
    ) -> (r: String)
        requires
            self.wf(),
            texts@.len() == self.nodes@.len(),
            n < self.nodes@.len(),
            forall|i: int| 0 <= i < last@.len() ==> n < #[trigger] last@[i] < self.nodes@.len(),
        ensures
            r@ == tree_text(*self, texts@, n as int, last@, remind, include_variations, config.include_comments),
        decreases self.nodes@.len() - n,
    {
        let ghost vars = include_variations;
        let ghost comments = config.include_comments;
        let mut lc = String::new();
        let mut i: usize = 0;
        while i < last.len()
            invariant
                self.wf(),
                texts@.len() == self.nodes@.len(),
                n < self.nodes@.len(),
                forall|k: int| 0 <= k < last@.len() ==> n < #[trigger] last@[k] < self.nodes@.len(),
                i <= last@.len(),
                vars == include_variations,
                comments == config.include_comments,
                lc@ + variations_text(*self, texts@, n as int, last@, i as int, vars, comments)
                    == variations_text(*self, texts@, n as int, last@, 0, vars, comments),
            decreases last@.len() - i,
        {
            let c = last[i];
            let empty: Vec<usize> = Vec::new();
            let line = self.render_node(texts, c, &empty, true, include_variations, config);
            let ghost before = lc@;
            push_char(&mut lc, ' ');
            push_char(&mut lc, '(');
            push_string(&mut lc, &line);
            push_char(&mut lc, ')');
            proof {
                assert(empty@ =~= Seq::<usize>::empty());
                assert(lc@ =~= before + (seq![' ', '('] + line@ + seq![')']));
                assert(variations_text(*self, texts@, n as int, last@, i as int, vars, comments)
                    == seq![' ', '('] + line@ + seq![')'] + variations_text(*self, texts@, n as int, last@, i + 1, vars, comments));
                assert(lc@ + variations_text(*self, texts@, n as int, last@, i + 1, vars, comments) =~= before
                    + variations_text(*self, texts@, n as int, last@, i as int, vars, comments));
            }
            i = i + 1;
        }
        let node = &self.nodes[n];
        let moved = node.move_data.is_some();
        let goes_on = !moved || texts[n].playable;
        let mut up_till_now = String::new();
        if moved && texts[n].playable {
            let t = &texts[n];
            if t.white_moved {
                push_decimal(&mut up_till_now, t.fullmove);
                push_char(&mut up_till_now, '.');
                push_char(&mut up_till_now, ' ');
            } else if remind {
                push_decimal(&mut up_till_now, t.fullmove);
                push_char(&mut up_till_now, '.');
                push_char(&mut up_till_now, '.');
                push_char(&mut up_till_now, '.');
                push_char(&mut up_till_now, ' ');
            }
            push_string(&mut up_till_now, &t.text);
        }
        let ghost rm = up_till_now@;
        if config.include_comments {
            match &node.comment {
                Some(c) => {
                    push_char(&mut up_till_now, ' ');
                    push_char(&mut up_till_now, '{');
                    push_char(&mut up_till_now, ' ');
                    push_string(&mut up_till_now, c);
                    push_char(&mut up_till_now, ' ');
                    push_char(&mut up_till_now, '}');
                },
                None => {},
            }
        }
        let ghost rmc = up_till_now@;
        push_string(&mut up_till_now, &lc);
        proof {
            let tn = texts@[n as int];
            assert(rm =~= (if moved && tn.playable {
                number_text(tn, remind) + tn.text@
            } else {
                Seq::<char>::empty()
            }));
            assert(rmc =~= rm + comment_text(node.comment, comments));
            assert(lc@ =~= variations_text(*self, texts@, n as int, last@, 0, vars, comments));
        }
        if node.continuations.len() > 0 && goes_on {
            let main = node.continuations[0];
            proof {
                assert(self.children_ok(n as int));
            }
            let alternatives = if include_variations {
                node.get_alternative_continuations()
            } else {
                Vec::new()
            };
            proof {
                assert forall|k: int| 0 <= k < alternatives@.len() implies main < #[trigger] alternatives@[k] < self.nodes@.len() by {
                    let c = node.continuations@;
                    assert(alternatives@[k] == c[k + 1]);
                    assert(c[0] < c[k + 1]);
                }
            }
            let rendered_main = self.render_node(texts, main, &alternatives, last.len() > 0, include_variations, config);
            if up_till_now.as_str().is_empty() {
                rendered_main
            } else {
                push_char(&mut up_till_now, ' ');
                push_string(&mut up_till_now, &rendered_main);
                up_till_now
            }
        } else {
            up_till_now
        }
    }
}

/// `x` is another move of the same kind of piece, `piece`, to the target of `m`.
pub open spec fn rival(m: Move, piece: Piece, b: Board, x: Move) -> bool {
    x != m && x.to_spec() == m.to_spec() && b.piece(x.from_spec().idx()) == piece
}

/// The SAN disambiguation of `m` among the moves `l`: nothing for a pawn or a king or when no
/// other move of the same kind of piece reaches the same square; otherwise the origin file when
/// no rival shares it, else the origin rank when no rival shares that, else both.
pub open spec fn disambiguation_text(m: Move, piece: Piece, l: Seq<Move>, b: Board) -> Seq<char> {
    let from = m.from_spec().idx();
    let any = exists|i: int| 0 <= i < l.len() && #[trigger] rival(m, piece, b, l[i]);
    let same_file = exists|i: int|
        0 <= i < l.len() && #[trigger] rival(m, piece, b, l[i]) && sq_file(l[i].from_spec().idx()) == sq_file(from);
    let same_rank = exists|i: int|
        0 <= i < l.len() && #[trigger] rival(m, piece, b, l[i]) && sq_rank(l[i].from_spec().idx()) == sq_rank(from);
    if piece == Piece::Pawn || piece == Piece::King || !any {
        Seq::empty()
    } else if same_file && same_rank {
        square_text(from)
    } else if same_file {
        seq![(49 + sq_rank(from)) as char]
    } else {
        seq![file_letter(from)]
    }
}

/// The origin square `o` agrees with the written disambiguation `d`: each character of `d` is a
/// file letter naming `o`'s file or a rank digit naming `o`'s rank.
pub open spec fn origin_fits(d: Seq<char>, o: int) -> bool {
    forall|i: int|
        0 <= i < d.len() ==> {
            ||| 'a' <= #[trigger] d[i] <= 'h' && sq_file(o) == char_index(d[i], 'a')
            ||| '1' <= d[i] <= '8' && sq_rank(o) == char_index(d[i], '1')
        }
}

/// The disambiguation written for a move of a bishop, knight, rook or queen identifies it: its
/// own origin fits it and the origin of no other move of that piece kind to the same square
/// does. It is empty exactly when there is no such other move, holds both file and rank only
/// when rivals share each of them, and is the rank only when a rival shares the file.
pub proof fn lemma_disambiguation_identifies(m: Move, piece: Piece, l: Seq<Move>, b: Board)
    requires
        piece == Piece::Knight || piece == Piece::Bishop || piece == Piece::Rook || piece == Piece::Queen,
    ensures
        origin_fits(disambiguation_text(m, piece, l, b), m.from_spec().idx()),
        forall|i: int|
            0 <= i < l.len() && #[trigger] rival(m, piece, b, l[i]) && l[i].from_spec() != m.from_spec()
                ==> !origin_fits(disambiguation_text(m, piece, l, b), l[i].from_spec().idx()),
        (disambiguation_text(m, piece, l, b).len() == 0) == !(exists|i: int| 0 <= i < l.len() && #[trigger] rival(m, piece, b, l[i])),
        disambiguation_text(m, piece, l, b).len() <= 2,
        disambiguation_text(m, piece, l, b).len() == 2 ==> (exists|i: int|
            0 <= i < l.len() && #[trigger] rival(m, piece, b, l[i]) && sq_file(l[i].from_spec().idx()) == sq_file(
                m.from_spec().idx(),
            )) && (exists|i: int|
            0 <= i < l.len() && #[trigger] rival(m, piece, b, l[i]) && sq_rank(l[i].from_spec().idx()) == sq_rank(
                m.from_spec().idx(),
            )),
        disambiguation_text(m, piece, l, b).len() == 1 && '1' <= disambiguation_text(m, piece, l, b)[0] <= '8' ==> (exists|i: int|
            0 <= i < l.len() && #[trigger] rival(m, piece, b, l[i]) && sq_file(l[i].from_spec().idx()) == sq_file(
                m.from_spec().idx(),
            )),
{
    let d = disambiguation_text(m, piece, l, b);
    let from = m.from_spec().idx();
    assert(0 <= from < 64);
    crate::attacks::manual::lemma_coords(from);
    assert forall|i: int|
        0 <= i < l.len() && #[trigger] rival(m, piece, b, l[i]) && l[i].from_spec() != m.from_spec()
            implies !origin_fits(d, l[i].from_spec().idx()) by {
        let o = l[i].from_spec().idx();
        assert(0 <= o < 64);
        crate::attacks::manual::lemma_coords(o);
        crate::attacks::manual::lemma_coords(from);
        if o == from {
            crate::types::square::Square::lemma_idx_injective(l[i].from_spec(), m.from_spec());
        }
        if d.len() == 2 {
            assert(!('1' <= d[0] <= '8'));
            assert(!('a' <= d[1] <= 'h'));
        } else if d.len() == 1 {
            if '1' <= d[0] <= '8' {
                assert(!('a' <= d[0] <= 'h'));
            } else {
                assert(!('1' <= d[0] <= '8'));
            }
        }
    }
}

/// Computes the SAN disambiguation of `move_` among the moves `legal`.
fn disambiguation(move_: Move, moved_piece: Piece, board: &Board, legal: &MoveList) -> (r: String)
    ensures
        r@ == disambiguation_text(move_, moved_piece, legal@, *board),
{
    let mut r = String::new();
    if moved_piece == Piece::Pawn || moved_piece == Piece::King {
        return r;
    }
    let from = move_.from();
    let to = move_.to();
    let ghost l = legal@;
    let mut any = false;
    let mut same_file = false;
    let mut same_rank = false;
    let mut i: usize = 0;
    while i < legal.len()
        invariant
            l == legal@,
            i <= l.len(),
            from == move_.from_spec(),
            to == move_.to_spec(),
            any == exists|j: int| 0 <= j < i && #[trigger] rival(move_, moved_piece, *board, l[j]),
            same_file == exists|j: int|
                0 <= j < i && #[trigger] rival(move_, moved_piece, *board, l[j]) && sq_file(l[j].from_spec().idx()) == sq_file(from.idx()),
            same_rank == exists|j: int|
                0 <= j < i && #[trigger] rival(move_, moved_piece, *board, l[j]) && sq_rank(l[j].from_spec().idx()) == sq_rank(from.idx()),
        decreases l.len() - i,
    {
        let m = legal.get(i);
        if m != move_ && m.to() == to && board.piece_at(m.from()) == moved_piece {
            assert(rival(move_, moved_piece, *board, l[i as int]));
            any = true;
            if m.from().file().index() == from.file().index() {
                same_file = true;
            }
            if m.from().rank().index() == from.rank().index() {
                same_rank = true;
            }
        } else {
            assert(!rival(move_, moved_piece, *board, l[i as int]));
        }
        i = i + 1;
    }
    if !any {
        return r;
    }
    if same_file && same_rank {
        push_char(&mut r, from.file_char());
        push_char(&mut r, from.rank_char());
        proof {
            assert(r@ =~= square_text(from.idx()));
        }
    } else if same_file {
        push_char(&mut r, from.rank_char());
        proof {
            assert(r@ =~= seq![(49 + sq_rank(from.idx())) as char]);
        }
    } else {
        push_char(&mut r, from.file_char());
        proof {
            assert(r@ =~= seq![file_letter(from.idx())]);
        }
    }
    r
}

/// Whether `m` captures on `b` (en passant always, castling never, otherwise when its target is
/// occupied).
pub open spec fn capture_of(m: Move, b: Board) -> bool {
    match m.flag_spec() {
        MoveFlag::EnPassant => true,
        MoveFlag::Castling => false,
        _ => b.piece(m.to_spec().idx()) != Piece::Null,
    }
}

/// `t`'s text is the move of `d` written in SAN from `p`, with the disambiguation among the
/// moves `l` generated there (every legal move, and only legal moves where the generator's
/// king safety holds), the check of the resulting position `q`, and the checkmate flag `mate`
/// (from a sound position: set exactly when `q` is in check and has no legal move).
pub open spec fn text_parts_ok(
    p: Position,
    d: PgnMoveData,
    t: NodeText,
    q: Position,
    l: Seq<Move>,
    mate: bool,
    include_annotations: bool,
    include_nags: bool,
) -> bool {
    let m = d.move_;
    let piece = p.board.piece(m.from_spec().idx());
    &&& forall|i: int| 0 <= i < l.len() ==> gen_ok(p, #[trigger] l[i])
    &&& forall|x: Move| #[trigger] is_legal(p, x) ==> l.contains(x)
    &&& safety_grounded(p) ==> forall|i: int| 0 <= i < l.len() ==> is_legal(p, #[trigger] l[i])
    &&& (mate ==> q.ctx().checkers != 0)
    &&& sound_position(p) ==> mate == (q.ctx().checkers != 0 && forall|x: Move| !#[trigger] is_legal(q, x))
    &&& t.text@ == move_data_text(
        d,
        piece,
        disambiguation_text(m, piece, l, p.board),
        q.ctx().checkers != 0,
        mate,
        capture_of(m, p.board),
        include_annotations,
        include_nags,
    )
}

/// `t` is the text of the move of `d` played from `p`, which leads to `q`.
pub open spec fn node_text_ok(
    p: Position,
    d: PgnMoveData,
    t: NodeText,
    q: Position,
    include_annotations: bool,
    include_nags: bool,
) -> bool {
    let m = d.move_;
    &&& t.playable
    &&& gen_ok(p, m)
    &&& searchable(q, 0)
    &&& q.stm() == p.stm().opp()
    &&& q.halfmove == p.halfmove + 1
    &&& forall|s: int| 0 <= s < 64 ==> #[trigger] q.board.piece(s) == after_piece(p.board, p.stm(), m, s)
    &&& t.white_moved == (p.stm() == Color::White)
    &&& t.fullmove == p.halfmove / 2 + 1
    &&& exists|l: Seq<Move>, mate: bool| #[trigger] text_parts_ok(p, d, t, q, l, mate, include_annotations, include_nags)
}

/// A text for a move that cannot be played.
fn unplayable() -> (t: NodeText)
    ensures
        !t.playable,
{
    NodeText { playable: false, white_moved: false, fullmove: 0, text: String::new() }
}

/// The text of the move of `d` played from `p`, and the position it leads to; the move cannot
/// be played when the side to move has no single king, when a counter would overflow, or when
/// the move is not among the moves generated for `p`.
pub fn node_text(p: &Position, d: &PgnMoveData, config: PgnRenderingConfig) -> (r: (NodeText, Option<Position>))
    requires
        searchable(*p, 0),
    ensures
        r.0.playable == r.1 is Some,
        r.1 matches Some(q) ==> node_text_ok(*p, *d, r.0, q, config.include_annotations, config.include_nags),
        sound_position(*p) ==> r.0.playable == (p.ctx().halfmove_clock < 255 && p.halfmove < u16::MAX && is_legal(
            *p,
            d.move_,
        )),
        sound_position(*p) ==> (r.1 matches Some(q) ==> sound_position(q)),
{
    let stm = p.side_to_move();
    let kings = p.board.piece_mask_at(Piece::King) & p.board.color_mask_at(stm);
    if count_squares(kings) != 1 || p.context().halfmove_clock >= 255 || p.halfmove == u16::MAX {
        return (unplayable(), None);
    }
    let mut legal = MoveList::new();
    p.generate_moves(&mut legal);
    let m = d.move_;
    let mut found = false;
    let mut i: usize = 0;
    while i < legal.len()
        invariant
            i <= legal@.len(),
            found == exists|j: int| 0 <= j < i && legal@[j] == m,
            forall|j: int| 0 <= j < legal@.len() ==> gen_ok(*p, #[trigger] legal@[j]),
        decreases legal@.len() - i,
    {
        if legal.get(i) == m {
            found = true;
        }
        i = i + 1;
    }
    proof {
        if sound_position(*p) {
            if is_legal(*p, m) {
                let j = choose|j: int| 0 <= j < legal@.len() && legal@[j] == m;
            }
        }
        assert forall|x: Move| #[trigger] is_legal(*p, x) implies legal@.contains(x) by {
            let j = choose|j: int| 0 <= j < legal@.len() && legal@[j] == x;
        }
    }
    if !found {
        return (unplayable(), None);
    }
    proof {
        let j = choose|j: int| 0 <= j < i && legal@[j] == m;
        assert(gen_ok(*p, legal@[j]));
    }
    let from = m.from();
    let piece = p.board.piece_at(from);
    let dis = disambiguation(m, piece, &p.board, &legal);
    let capture = m.is_capture_on_board(&p.board);
    let q = p.after_move(m);
    proof {
        if sound_position(*p) {
            let j = choose|j: int| 0 <= j < i && legal@[j] == m;
            assert(is_legal(*p, legal@[j]));
            lemma_legal_move_keeps_grounded(*p, m, q);
        }
    }
    let check = q.is_current_side_in_check();
    let mut mate = false;
    if check {
        let q_stm = q.side_to_move();
        let q_kings = q.board.piece_mask_at(Piece::King) & q.board.color_mask_at(q_stm);
        if count_squares(q_kings) == 1 {
            let mut replies = MoveList::new();
            q.generate_moves(&mut replies);
            mate = replies.len() == 0;
            proof {
                if sound_position(*p) {
                    if replies@.len() > 0 {
                        assert(is_legal(q, replies@[0]));
                    } else {
                        assert forall|x: Move| !#[trigger] is_legal(q, x) by {
                            if is_legal(q, x) {
                                let j = choose|j: int| 0 <= j < replies@.len() && replies@[j] == x;
                            }
                        }
                    }
                }
            }
        }
    }
    proof {
        assert(sq_file(m.to_spec().idx()) == m.to_spec().idx() % 8);
    }
    let text = d.render(
        piece,
        dis.as_str(),
        check,
        mate,
        capture,
        config.include_annotations,
        config.include_nags,
    );
    let t = NodeText { playable: true, white_moved: stm == Color::White, fullmove: p.get_fullmove(), text };
    proof {
        assert(text_parts_ok(*p, *d, t, q, legal@, mate, config.include_annotations, config.include_nags));
    }
    (t, Some(q))
}

/// The texts of the continuation `c` of node `i` are right: a legal move from a sound position
/// whose counters leave room is playable, and a playable move has positions before and after
/// it and is written correctly.
pub open spec fn child_text_ok(
    t: MoveTree,
    texts: Seq<NodeText>,
    pos: Seq<Option<Position>>,
    i: int,
    c: int,
    include_annotations: bool,
    include_nags: bool,
) -> bool {
    &&& (pos[i] matches Some(pp) ==> (sound_position(pp) && pp.ctx().halfmove_clock < 255 && pp.halfmove < u16::MAX ==> (
    t.nodes@[c].move_data matches Some(d) ==> (is_legal(pp, d.move_) ==> texts[c].playable))))
    &&& texts[c].playable ==> {
        &&& pos[i] is Some
        &&& pos[c] is Some
        &&& t.nodes@[c].move_data is Some
        &&& node_text_ok(
            pos[i]->0,
            t.nodes@[c].move_data->0,
            texts[c],
            pos[c]->0,
            include_annotations,
            include_nags,
        )
    }
}

/// `p` is the starting position of a game: White to move, nothing played, the standard
/// placement, and searchable.
pub open spec fn is_start(p: Position) -> bool {
    &&& searchable(p, 0)
    &&& p.stm() == Color::White
    &&& p.halfmove == 0
    &&& forall|s: int| 0 <= s < 64 ==> #[trigger] p.board.piece(s) == crate::board::initial_piece(s)
    &&& forall|s: int| 0 <= s < 64 ==> #[trigger] p.board.color(s) == crate::board::initial_color(s)
    &&& p.ctx().double_pawn_push_file == -1
}

/// Every move of the tree that is written is written correctly, from the positions `pos`
/// reached from the position `pos[0]` at the root; from a sound root, every move that can be
/// played is written.
pub open spec fn texts_ok(
    t: MoveTree,
    texts: Seq<NodeText>,
    pos: Seq<Option<Position>>,
    include_annotations: bool,
    include_nags: bool,
) -> bool {
    &&& texts.len() == t.nodes@.len()
    &&& pos.len() == t.nodes@.len()
    &&& pos[0] matches Some(p0) && searchable(p0, 0)
    &&& sound_position(pos[0]->0) ==> forall|i: int|
        0 <= i < pos.len() ==> (#[trigger] pos[i] matches Some(x) ==> sound_position(x))
    &&& forall|i: int, k: int|
        0 <= i < t.nodes@.len() && 0 <= k < t.nodes@[i].continuations@.len() ==> child_text_ok(
            t,
            texts,
            pos,
            i,
            #[trigger] t.nodes@[i].continuations@[k] as int,
            include_annotations,
            include_nags,
        )
}

impl MoveTree {
    /// Writes the move of every node reachable from the root, walking the positions from
    /// `start`.
    fn compute_texts(&self, start: Position, config: PgnRenderingConfig) -> (r: (Vec<NodeText>, Ghost<Seq<Option<Position>>>))
        requires
            self.wf(),
            searchable(start, 0),
        ensures
            texts_ok(*self, r.0@, r.1@, config.include_annotations, config.include_nags),
            r.1@[0] == Some(start),
    {
        let n = self.nodes.len();
        let mut texts: Vec<NodeText> = Vec::new();
        let mut positions: Vec<Option<Position>> = Vec::new();
        positions.push(Some(start));
        texts.push(unplayable());
        while texts.len() < n
            invariant
                n == self.nodes@.len(),
                texts@.len() == positions@.len(),
                1 <= texts@.len() <= n,
                positions@[0] == Some(start),
                forall|i: int| 0 < i < positions@.len() ==> #[trigger] positions@[i] is None,
            decreases n - texts@.len(),
        {
            texts.push(unplayable());
            positions.push(None);
        }
        let ia = config.include_annotations;
        let ina = config.include_nags;
        let mut p: usize = 0;
        while p < n
            invariant
                self.wf(),
                n == self.nodes@.len(),
                texts@.len() == n,
                positions@.len() == n,
                p <= n,
                positions@[0] == Some(start),
                searchable(start, 0),
                ia == config.include_annotations,
                ina == config.include_nags,
                forall|i: int| 0 <= i < n ==> (#[trigger] positions@[i] matches Some(x) ==> searchable(x, 0) && (sound_position(start) ==> sound_position(x))),
                forall|i: int, k: int|
                    0 <= i < p && 0 <= k < self.nodes@[i].continuations@.len() ==> child_text_ok(
                        *self,
                        texts@,
                        positions@,
                        i,
                        #[trigger] self.nodes@[i].continuations@[k] as int,
                        ia,
                        ina,
                    ),
            decreases n - p,
        {
            let nk = self.nodes[p].continuations.len();
            let mut k: usize = 0;
            while k < nk
                invariant
                    self.wf(),
                    n == self.nodes@.len(),
                    texts@.len() == n,
                    positions@.len() == n,
                    p < n,
                    nk == self.nodes@[p as int].continuations@.len(),
                    k <= nk,
                    positions@[0] == Some(start),
                    searchable(start, 0),
                    ia == config.include_annotations,
                    ina == config.include_nags,
                    forall|i: int| 0 <= i < n ==> (#[trigger] positions@[i] matches Some(x) ==> searchable(x, 0) && (sound_position(start) ==> sound_position(x))),
                    forall|i: int, k2: int|
                        (0 <= i < p && 0 <= k2 < self.nodes@[i].continuations@.len()) || (i == p && 0 <= k2 < k)
                            ==> child_text_ok(
                            *self,
                            texts@,
                            positions@,
                            i,
                            #[trigger] self.nodes@[i].continuations@[k2] as int,
                            ia,
                            ina,
                        ),
                decreases nk - k,
            {
                let c = self.nodes[p].continuations[k];
                proof {
                    assert(self.children_ok(p as int));
                    assert(p < c < n);
                }
                let (t, q) = match &positions[p] {
                    Some(ppos) => match &self.nodes[c].move_data {
                        Some(d) => node_text(ppos, d, config),
                        None => (unplayable(), None),
                    },
                    None => (unplayable(), None),
                };
                let ghost pos0 = positions@;
                let ghost texts0 = texts@;
                texts.set(c, t);
                positions.set(c, q);
                proof {
                    assert forall|i: int, k2: int|
                        (0 <= i < p && 0 <= k2 < self.nodes@[i].continuations@.len()) || (i == p && 0 <= k2 < k + 1)
                            implies child_text_ok(
                            *self,
                            texts@,
                            positions@,
                            i,
                            #[trigger] self.nodes@[i].continuations@[k2] as int,
                            ia,
                            ina,
                        ) by {
                        let c2 = self.nodes@[i].continuations@[k2] as int;
                        assert(self.children_ok(i));
                        if c2 != c {
                            assert(child_text_ok(*self, texts0, pos0, i, c2, ia, ina));
                            assert(texts@[c2] == texts0[c2]);
                            assert(positions@[c2] == pos0[c2]);
                            assert(positions@[i] == pos0[i]);
                        } else {
                            assert(i == p && k2 == k);
                            assert(positions@[i] == pos0[i]);
                        }
                    }
                }
                k = k + 1;
            }
            p = p + 1;
        }
        (texts, Ghost(positions@))
    }
}

impl MoveTree {
    /// Writes the move text of the tree, played from `start`, with the variations when
    /// `include_variations` holds and the markings `config` asks for.
    pub fn render_from(&self, start: Position, include_variations: bool, config: PgnRenderingConfig) -> (r: String)
        requires
            self.wf(),
            searchable(start, 0),
        ensures
            exists|texts: Seq<NodeText>, pos: Seq<Option<Position>>|
                #[trigger] texts_ok(*self, texts, pos, config.include_annotations, config.include_nags) && pos[0]
                    == Some(start) && r@ == tree_text(
                    *self,
                    texts,
                    0,
                    Seq::empty(),
                    false,
                    include_variations,
                    config.include_comments,
                ),
    {
        let (texts, pos) = self.compute_texts(start, config);
        let empty: Vec<usize> = Vec::new();
        let body = self.render_node(&texts, 0, &empty, false, include_variations, config);
        proof {
            assert(empty@ =~= Seq::<usize>::empty());
            assert(texts_ok(*self, texts@, pos@, config.include_annotations, config.include_nags));
        }
        body
    }
}

impl PgnObject {
    /// Renders the game as PGN: the tag lines, then the move text from the starting position,
    /// with the variations when `include_variations` holds and the markings `config` asks for.
    pub fn render(&self, include_variations: bool, config: PgnRenderingConfig) -> (r: String)
        requires
            self.tree_root.wf(),
        ensures
            exists|texts: Seq<NodeText>, pos: Seq<Option<Position>>|
                #[trigger] texts_ok(self.tree_root, texts, pos, config.include_annotations, config.include_nags)
                    && is_start(pos[0]->0) && sound_position(pos[0]->0) && r@ == tags_text(tag_entries(self.tags))
                    + tree_text(self.tree_root, texts, 0, Seq::empty(), false, include_variations, config.include_comments),
    {
        let mut result = self.render_tags();
        let start = Position::initial();
        proof {
            crate::position::perft::lemma_initial_searchable(start);
            crate::position::perft::lemma_initial_grounded(start);
        }
        let ghost st = start;
        let body = self.tree_root.render_from(start, include_variations, config);
        push_string(&mut result, &body);
        proof {
            assert(is_start(st));
        }
        result
    }
}

} // verus!
