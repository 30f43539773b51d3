//! A board: a name and its lists, with its encoding.
use vstd::prelude::*;
use crate::board_list::{
    BoardList, ListView, lists_view, all_lists_bytes, lists_fit, parse_all_lists, is_count_error,
    count_field, write_all_board_lists, read_all_board_lists,
};
use crate::error::{KanbanError, KanbanErrorKind};
use crate::format::{Parsed, parse_varint, parse_text_with_length, short_text_bytes};
use crate::reader::BinaryReader;
use crate::varint::leb128_bytes;
use crate::writer::BinaryWriter;

verus! {

/// A board: a name (short string) and its lists in order.
#[derive(Debug, Clone, PartialEq)]
pub struct Board {
    pub name: String,
    pub lists: Vec<BoardList>,
}

/// The value of a board: its name and its lists.
pub struct BoardView {
    pub name: Seq<char>,
    pub lists: Seq<ListView>,
}

impl View for Board {
    type V = BoardView;

    open spec fn view(&self) -> BoardView {
        BoardView { name: self.name@, lists: lists_view(self.lists@) }
    }
}

/// The value of each board.
pub open spec fn boards_view(v: Seq<Board>) -> Seq<BoardView> {
    v.map_values(|b: Board| b@)
}

/// A board: its name, then a count of lists and the lists.
pub open spec fn board_bytes(b: BoardView) -> Seq<u8> {
    short_text_bytes(b.name) + all_lists_bytes(b.lists)
}

/// The boards one after another.
pub open spec fn boards_bytes(bs: Seq<BoardView>) -> Seq<u8>
    decreases bs.len(),
{
    if bs.len() == 0 {
        seq![]
    } else {
        boards_bytes(bs.drop_last()) + board_bytes(bs.last())
    }
}

/// A count of boards, then the boards.
pub open spec fn all_boards_bytes(bs: Seq<BoardView>) -> Seq<u8> {
    leb128_bytes(bs.len()) + boards_bytes(bs)
}

/// Whether every count and item length in a board fits its 32-bit field.
pub open spec fn board_fits(b: BoardView) -> bool {
    b.lists.len() <= u32::MAX && lists_fit(b.lists)
}

/// Whether every board fits.
pub open spec fn boards_fit(bs: Seq<BoardView>) -> bool {
    forall|i: int| 0 <= i < bs.len() ==> board_fits(#[trigger] bs[i])
}

/// A board from `pos`.
#[verifier::opaque]
pub open spec fn parse_board(b: Seq<u8>, pos: nat) -> Parsed<BoardView> {
    match parse_text_with_length(b, pos, true) {
        Ok((name, pos1)) => match parse_all_lists(b, pos1) {
            Ok((lists, pos2)) => Ok((BoardView { name, lists }, pos2)),
            Err(e) => Err(e),
        },
        Err(e) => Err(e),
    }
}

/// `k` boards from `pos`.
pub open spec fn parse_boards(b: Seq<u8>, pos: nat, k: nat) -> Parsed<Seq<BoardView>>
    decreases k,
{
    if k == 0 {
        Ok((seq![], pos))
    } else {
        match parse_boards(b, pos, (k - 1) as nat) {
            Ok((xs, p)) => match parse_board(b, p) {
                Ok((x, q)) => Ok((xs.push(x), q)),
                Err(e) => Err(e),
            },
            Err(e) => Err(e),
        }
    }
}

/// A count of boards, then the boards, from `pos`.
pub open spec fn parse_all_boards(b: Seq<u8>, pos: nat) -> Parsed<Seq<BoardView>> {
    match parse_varint(b, pos) {
        Ok((n, p)) => parse_boards(b, p, n),
        Err(e) => Err(e),
    }
}

/// A failure among the first `k` boards is the failure of any longer run.
pub proof fn lemma_parse_boards_failed(b: Seq<u8>, pos: nat, k: nat, k2: nat)
    requires
        k <= k2,
        parse_boards(b, pos, k) is Err,
    ensures
        parse_boards(b, pos, k2) == parse_boards(b, pos, k),
    decreases k2,
{
    if k2 > k {
        lemma_parse_boards_failed(b, pos, k, (k2 - 1) as nat);
    }
}

/// Writes one board: its name, then its lists. Fails, having written part of
/// the board, when a count or an item's length does not fit in 32 bits.
pub fn write_board(bw: &mut BinaryWriter, board: &Board) -> (r: Result<(), KanbanError>)
    ensures
        r is Ok <==> board_fits(board@),
        r is Ok ==> final(bw)@ == old(bw)@ + board_bytes(board@),
        r matches Err(e) ==> is_count_error(e) && old(bw)@.is_prefix_of(final(bw)@),
{
    bw.write_string_with_length(board.name.as_str(), true);
    let ghost mid = bw@;
    let r = write_all_board_lists(bw, board.lists.as_slice());
    proof {
        if r is Err {
            assert forall|j: int| 0 <= j < old(bw)@.len() implies old(bw)@[j] == bw@[j] by {
                assert(mid[j] == old(bw)@[j]);
            }
        }
    }
    r?;
    assert(bw@ =~= old(bw)@ + board_bytes(board@));
    Ok(())
}

/// Writes a count of boards, then each board.
pub fn write_all_boards(bw: &mut BinaryWriter, boards: &[Board]) -> (r: Result<(), KanbanError>)
    ensures
        r is Ok <==> boards@.len() <= u32::MAX && boards_fit(boards_view(boards@)),
        r is Ok ==> final(bw)@ == old(bw)@ + all_boards_bytes(boards_view(boards@)),
        r matches Err(e) ==> is_count_error(e) && old(bw)@.is_prefix_of(final(bw)@),
{
    let count = count_field(boards.len())?;
    bw.write_leb128(count);
    let ghost start = bw@;
    let mut i: usize = 0;
    while i < boards.len()
        invariant
            i <= boards@.len(),
            start == old(bw)@ + leb128_bytes(boards@.len()),
            boards_fit(boards_view(boards@.subrange(0, i as int))),
            bw@ == start + boards_bytes(boards_view(boards@.subrange(0, i as int))),
        decreases boards@.len() - i,
    {
        let ghost before = bw@;
        match write_board(bw, &boards[i]) {
            Ok(()) => {},
            Err(e) => {
                proof {
                    assert(!board_fits(boards_view(boards@)[i as int]));
                    assert forall|j: int| 0 <= j < old(bw)@.len() implies old(bw)@[j] == bw@[j] by {
                        assert(before[j] == old(bw)@[j]);
                    }
                }
                return Err(e);
            },
        }
        proof {
            let v = boards_view(boards@.subrange(0, i + 1));
            assert(v.drop_last() =~= boards_view(boards@.subrange(0, i as int)));
            assert(v.last() == boards@[i as int]@);
            assert forall|j: int| 0 <= j < v.len() implies board_fits(#[trigger] v[j]) by {
                if j < i {
                    assert(v[j] == boards_view(boards@.subrange(0, i as int))[j]);
                }
            }
        }
        i = i + 1;
    }
    assert(boards@.subrange(0, boards@.len() as int) =~= boards@);
    Ok(())
}

/// Reads one board: its name, then its lists.
pub fn read_board(br: &mut BinaryReader) -> (r: Result<Board, KanbanError>)
    ensures
        final(br).bytes@ == old(br).bytes@,
        match parse_board(old(br).bytes@, old(br).address as nat) {
            Ok((v, p)) => r matches Ok(x) && x@ == v && final(br).address == p,
            Err(k) => r matches Err(e) && e.kind == k,
        },
{
    reveal(parse_board);
    let name: String = br.next_string_with_length(true)?;
    let lists: Vec<BoardList> = read_all_board_lists(br)?;
    Ok(Board { name, lists })
}

/// Reads a count of boards, then each board.
pub fn read_all_boards(br: &mut BinaryReader) -> (r: Result<Vec<Board>, KanbanError>)
    ensures
        final(br).bytes@ == old(br).bytes@,
        match parse_all_boards(old(br).bytes@, old(br).address as nat) {
            Ok((v, p)) => r matches Ok(x) && boards_view(x@) == v && final(br).address == p,
            Err(k) => r matches Err(e) && e.kind == k,
        },
{
    let count: usize = br.next_leb128_number()?;
    let ghost b = br.bytes@;
    let ghost pos = br.address as nat;
    let mut boards: Vec<Board> = Vec::new();
    let mut i: usize = 0;
    assert(boards_view(boards@) =~= seq![]);
    while i < count
        invariant
            i <= count,
            br.bytes@ == b,
            b == old(br).bytes@,
            parse_varint(b, old(br).address as nat) == Ok::<(nat, nat), KanbanErrorKind>(
                (count as nat, pos),
            ),
            parse_boards(b, pos, i as nat) == Ok::<(Seq<BoardView>, nat), KanbanErrorKind>(
                (boards_view(boards@), br.address as nat),
            ),
        decreases count - i,
    {
        match read_board(br) {
            Ok(board) => {
                let ghost prev = boards@;
                let ghost bv = board@;
                boards.push(board);
                assert(boards_view(boards@) =~= boards_view(prev).push(bv));
                i = i + 1;
            },
            Err(e) => {
                proof {
                    lemma_parse_boards_failed(b, pos, (i + 1) as nat, count as nat);
                }
                return Err(e);
            },
        }
    }
    Ok(boards)
}

} // verus!
