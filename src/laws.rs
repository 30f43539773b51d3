//! Reading back what the writer produced gives the same document.
use vstd::prelude::*;
use vstd::utf8::{encode_utf8, encode_utf8_valid_utf8, encode_utf8_decode_utf8};
use crate::board::{
    BoardView, board_bytes, boards_bytes, all_boards_bytes, parse_board, parse_boards, parse_all_boards,
};
use crate::board_list::{
    ListView, list_bytes, lists_bytes, all_lists_bytes, items_bytes, parse_list, parse_lists,
    parse_all_lists, parse_items,
};
use crate::format::{
    text_with_length, short_prefix, long_text_fits, parse_byte, parse_bytes, parse_text_with_length,
    parse_varint,
};
use crate::project::{Project, ProjectView, header_of, project_bytes, parse_header, parse_project};
use crate::store::{ProjectFile, file_header, listed_headers, is_project_file_name};
use crate::text::{hex_upper, lemma_hex_upper_shape};
use vstd::utf8::{is_ascii_chars, is_ascii_chars_encode_utf8};
use crate::varint::{leb128_bytes, lemma_varint_round_trip};

verus! {

/// Whether `s` stands in `b` from `pos` on.
pub open spec fn holds_at(b: Seq<u8>, pos: nat, s: Seq<u8>) -> bool {
    pos + s.len() <= b.len() && b.subrange(pos as int, (pos + s.len()) as int) == s
}

/// A text that a short string carries whole: at most 255 bytes.
pub open spec fn short_ok(s: Seq<char>) -> bool {
    encode_utf8(s).len() <= 255
}

/// A list that reads back as written.
pub open spec fn list_ok(l: ListView) -> bool {
    short_ok(l.title) && l.color.len() == 3 && l.items.len() <= u32::MAX && forall|i: int|
        0 <= i < l.items.len() ==> long_text_fits(#[trigger] l.items[i])
}

/// Lists that read back as written.
pub open spec fn lists_ok(ls: Seq<ListView>) -> bool {
    ls.len() <= u32::MAX && forall|i: int| 0 <= i < ls.len() ==> list_ok(#[trigger] ls[i])
}

/// A board that reads back as written.
pub open spec fn board_ok(b: BoardView) -> bool {
    short_ok(b.name) && lists_ok(b.lists)
}

/// Boards that read back as written.
pub open spec fn boards_ok(bs: Seq<BoardView>) -> bool {
    bs.len() <= u32::MAX && forall|i: int| 0 <= i < bs.len() ==> board_ok(#[trigger] bs[i])
}

/// A project that reads back as written: a 16-byte identifier, a name of at
/// most 255 bytes, a description under 2^32 bytes, and boards that read back.
pub open spec fn project_ok(p: ProjectView) -> bool {
    p.id.len() == 16 && short_ok(p.name) && long_text_fits(p.description) && boards_ok(p.boards)
}

proof fn lemma_holds_at_split(b: Seq<u8>, pos: nat, x: Seq<u8>, y: Seq<u8>)
    requires
        holds_at(b, pos, x + y),
    ensures
        holds_at(b, pos, x),
        holds_at(b, pos + x.len(), y),
{
    let w = b.subrange(pos as int, (pos + x.len() + y.len()) as int);
    assert(w == x + y);
    assert(b.subrange(pos as int, (pos + x.len()) as int) =~= w.subrange(0, x.len() as int));
    assert((x + y).subrange(0, x.len() as int) =~= x);
    assert(b.subrange((pos + x.len()) as int, (pos + x.len() + y.len()) as int) =~= w.subrange(
        x.len() as int,
        (x.len() + y.len()) as int,
    ));
    assert((x + y).subrange(x.len() as int, (x.len() + y.len()) as int) =~= y);
}

proof fn lemma_read_varint(b: Seq<u8>, pos: nat, n: nat)
    requires
        n <= u32::MAX,
        holds_at(b, pos, leb128_bytes(n)),
    ensures
        parse_varint(b, pos) == Ok::<(nat, nat), crate::error::KanbanErrorKind>(
            (n, pos + leb128_bytes(n).len()),
        ),
{
    let e = leb128_bytes(n);
    let rest = b.subrange((pos + e.len()) as int, b.len() as int);
    assert(b.subrange(pos as int, b.len() as int) =~= e + rest) by {
        assert(b.subrange(pos as int, (pos + e.len()) as int) == e);
    }
    lemma_varint_round_trip(n as u32, rest);
}

proof fn lemma_read_text(b: Seq<u8>, pos: nat, s: Seq<char>, short_mode: bool)
    requires
        holds_at(b, pos, text_with_length(s, short_mode)),
        short_mode ==> short_ok(s),
        long_text_fits(s),
    ensures
        parse_text_with_length(b, pos, short_mode) == Ok::<
            (Seq<char>, nat),
            crate::error::KanbanErrorKind,
        >((s, pos + text_with_length(s, short_mode).len())),
{
    let e = encode_utf8(s);
    encode_utf8_valid_utf8(s);
    encode_utf8_decode_utf8(s);
    if short_mode {
        let prefix = seq![short_prefix(e.len())];
        lemma_holds_at_split(b, pos, prefix, e);
        assert(b[pos as int] == b.subrange(pos as int, (pos + 1) as int)[0]);
        assert(parse_byte(b, pos) == Ok::<(u8, nat), crate::error::KanbanErrorKind>(
            (e.len() as u8, pos + 1),
        ));
        assert(parse_bytes(b, pos + 1, e.len()) == Ok::<
            (Seq<u8>, nat),
            crate::error::KanbanErrorKind,
        >((e, pos + 1 + e.len())));
    } else {
        let lf = leb128_bytes(e.len());
        lemma_holds_at_split(b, pos, lf, e);
        lemma_read_varint(b, pos, e.len());
        assert(parse_bytes(b, pos + lf.len(), e.len()) == Ok::<
            (Seq<u8>, nat),
            crate::error::KanbanErrorKind,
        >((e, pos + lf.len() + e.len())));
    }
}

proof fn lemma_read_items(b: Seq<u8>, pos: nat, items: Seq<Seq<char>>)
    requires
        holds_at(b, pos, items_bytes(items)),
        forall|i: int| 0 <= i < items.len() ==> long_text_fits(#[trigger] items[i]),
    ensures
        parse_items(b, pos, items.len()) == Ok::<
            (Seq<Seq<char>>, nat),
            crate::error::KanbanErrorKind,
        >((items, pos + items_bytes(items).len())),
    decreases items.len(),
{
    if items.len() > 0 {
        let init = items.drop_last();
        lemma_holds_at_split(b, pos, items_bytes(init), text_with_length(items.last(), false));
        lemma_read_items(b, pos, init);
        assert(long_text_fits(items[items.len() - 1]));
        lemma_read_text(b, pos + items_bytes(init).len(), items.last(), false);
        assert(init.push(items.last()) =~= items);
        assert(((items.len() - 1) as nat) == init.len());
    } else {
        assert(items =~= seq![]);
    }
}

proof fn lemma_read_list(b: Seq<u8>, pos: nat, l: ListView)
    requires
        holds_at(b, pos, list_bytes(l)),
        list_ok(l),
    ensures
        parse_list(b, pos) == Ok::<(ListView, nat), crate::error::KanbanErrorKind>(
            (l, pos + list_bytes(l).len()),
        ),
{
    reveal(parse_list);
    let t = text_with_length(l.title, true);
    let n = leb128_bytes(l.items.len());
    let it = items_bytes(l.items);
    assert(list_bytes(l) == t + l.color + n + it);
    lemma_holds_at_split(b, pos, t + l.color + n, it);
    lemma_holds_at_split(b, pos, t + l.color, n);
    lemma_holds_at_split(b, pos, t, l.color);
    lemma_read_text(b, pos, l.title, true);
    let pos1 = pos + t.len();
    assert(parse_bytes(b, pos1, 3) == Ok::<(Seq<u8>, nat), crate::error::KanbanErrorKind>(
        (l.color, pos1 + 3),
    ));
    lemma_read_varint(b, pos1 + 3, l.items.len());
    lemma_read_items(b, pos1 + 3 + n.len(), l.items);
}

proof fn lemma_read_lists(b: Seq<u8>, pos: nat, ls: Seq<ListView>)
    requires
        holds_at(b, pos, lists_bytes(ls)),
        forall|i: int| 0 <= i < ls.len() ==> list_ok(#[trigger] ls[i]),
    ensures
        parse_lists(b, pos, ls.len()) == Ok::<(Seq<ListView>, nat), crate::error::KanbanErrorKind>(
            (ls, pos + lists_bytes(ls).len()),
        ),
    decreases ls.len(),
{
    if ls.len() > 0 {
        let init = ls.drop_last();
        lemma_holds_at_split(b, pos, lists_bytes(init), list_bytes(ls.last()));
        lemma_read_lists(b, pos, init);
        assert(list_ok(ls[ls.len() - 1]));
        lemma_read_list(b, pos + lists_bytes(init).len(), ls.last());
        assert(init.push(ls.last()) =~= ls);
        assert(((ls.len() - 1) as nat) == init.len());
    } else {
        assert(ls =~= seq![]);
    }
}

proof fn lemma_read_all_lists(b: Seq<u8>, pos: nat, ls: Seq<ListView>)
    requires
        holds_at(b, pos, all_lists_bytes(ls)),
        lists_ok(ls),
    ensures
        parse_all_lists(b, pos) == Ok::<(Seq<ListView>, nat), crate::error::KanbanErrorKind>(
            (ls, pos + all_lists_bytes(ls).len()),
        ),
{
    let n = leb128_bytes(ls.len());
    lemma_holds_at_split(b, pos, n, lists_bytes(ls));
    lemma_read_varint(b, pos, ls.len());
    lemma_read_lists(b, pos + n.len(), ls);
}

proof fn lemma_read_board(b: Seq<u8>, pos: nat, bd: BoardView)
    requires
        holds_at(b, pos, board_bytes(bd)),
        board_ok(bd),
    ensures
        parse_board(b, pos) == Ok::<(BoardView, nat), crate::error::KanbanErrorKind>(
            (bd, pos + board_bytes(bd).len()),
        ),
{
    reveal(parse_board);
    let t = text_with_length(bd.name, true);
    lemma_holds_at_split(b, pos, t, all_lists_bytes(bd.lists));
    lemma_read_text(b, pos, bd.name, true);
    lemma_read_all_lists(b, pos + t.len(), bd.lists);
}

proof fn lemma_read_boards(b: Seq<u8>, pos: nat, bs: Seq<BoardView>)
    requires
        holds_at(b, pos, boards_bytes(bs)),
        forall|i: int| 0 <= i < bs.len() ==> board_ok(#[trigger] bs[i]),
    ensures
        parse_boards(b, pos, bs.len()) == Ok::<(Seq<BoardView>, nat), crate::error::KanbanErrorKind>(
            (bs, pos + boards_bytes(bs).len()),
        ),
    decreases bs.len(),
{
    if bs.len() > 0 {
        let init = bs.drop_last();
        lemma_holds_at_split(b, pos, boards_bytes(init), board_bytes(bs.last()));
        lemma_read_boards(b, pos, init);
        assert(board_ok(bs[bs.len() - 1]));
        lemma_read_board(b, pos + boards_bytes(init).len(), bs.last());
        assert(init.push(bs.last()) =~= bs);
        assert(((bs.len() - 1) as nat) == init.len());
    } else {
        assert(bs =~= seq![]);
    }
}

/// Decoding the bytes of a valid project gives the same project back: its
/// identifier, name, description, and every board, list and item in order;
/// the decoder stops exactly at the end of those bytes. A project's header
/// read alone gives the same identifier, name and description.
pub proof fn lemma_project_round_trip(p: Project)
    requires
        project_ok(p@),
    ensures
        parse_project(project_bytes(p@)) == Ok::<(ProjectView, nat), crate::error::KanbanErrorKind>(
            (p@, project_bytes(p@).len()),
        ),
        parse_header(project_bytes(p@)) matches Ok((h, _)) && h == header_of(p@),
{
    reveal(parse_header);
    let v = p@;
    let b = project_bytes(v);
    assert(holds_at(b, 0, b)) by {
        assert(b.subrange(0, b.len() as int) =~= b);
    }
    let ver = seq![0u8];
    let name = text_with_length(v.name, true);
    let desc = text_with_length(v.description, false);
    let boards = all_boards_bytes(v.boards);
    assert(b == ver + v.id + name + desc + boards);
    lemma_holds_at_split(b, 0, ver + v.id + name + desc, boards);
    lemma_holds_at_split(b, 0, ver + v.id + name, desc);
    lemma_holds_at_split(b, 0, ver + v.id, name);
    lemma_holds_at_split(b, 0, ver, v.id);
    assert(b[0] == 0);
    assert(parse_byte(b, 0) == Ok::<(u8, nat), crate::error::KanbanErrorKind>((0u8, 1)));
    assert(parse_bytes(b, 1, 16) == Ok::<(Seq<u8>, nat), crate::error::KanbanErrorKind>(
        (v.id, 17),
    ));
    lemma_read_text(b, 17, v.name, true);
    let pos2 = 17 + name.len();
    lemma_read_text(b, pos2, v.description, false);
    let pos3 = pos2 + desc.len();
    let n = leb128_bytes(v.boards.len());
    lemma_holds_at_split(b, pos3, n, boards_bytes(v.boards));
    lemma_read_varint(b, pos3, v.boards.len());
    lemma_read_boards(b, pos3 + n.len(), v.boards);
    assert(parse_header(b) == Ok::<(ProjectView, nat), crate::error::KanbanErrorKind>(
        (ProjectView { id: v.id, name: v.name, description: v.description, boards: seq![] }, pos3),
    ));
}

/// A file whose first byte is not the format version is refused by every
/// read: the header read and the whole-document read fail with a format
/// error, and the directory listing leaves the file out, whatever follows
/// that byte.
pub proof fn lemma_version_gate(name: Seq<char>, b: Seq<u8>)
    requires
        b.len() > 0,
        b[0] != crate::project::FILE_VERSION,
    ensures
        parse_header(b) == Err::<(ProjectView, nat), crate::error::KanbanErrorKind>(
            crate::error::KanbanErrorKind::ProjectError,
        ),
        parse_project(b) == Err::<(ProjectView, nat), crate::error::KanbanErrorKind>(
            crate::error::KanbanErrorKind::ProjectError,
        ),
        file_header(name, b) is None,
{
    reveal(parse_header);
}

proof fn lemma_holds_inside(prefix: Seq<u8>, x: Seq<u8>, suffix: Seq<u8>)
    ensures
        holds_at(prefix + x + suffix, prefix.len(), x),
{
    let b = prefix + x + suffix;
    assert(b.subrange(prefix.len() as int, (prefix.len() + x.len()) as int) =~= x);
}

/// Lists written one after another, with their count before them, read back
/// as the same lists in the same order, whatever bytes precede and follow
/// them; the read stops right after the last list.
pub proof fn lemma_lists_round_trip(ls: Seq<ListView>, prefix: Seq<u8>, suffix: Seq<u8>)
    requires
        lists_ok(ls),
    ensures
        parse_all_lists(prefix + all_lists_bytes(ls) + suffix, prefix.len()) == Ok::<
            (Seq<ListView>, nat),
            crate::error::KanbanErrorKind,
        >((ls, prefix.len() + all_lists_bytes(ls).len())),
{
    lemma_holds_inside(prefix, all_lists_bytes(ls), suffix);
    lemma_read_all_lists(prefix + all_lists_bytes(ls) + suffix, prefix.len(), ls);
}

/// Boards written one after another, with their count before them, read
/// back as the same boards in the same order, whatever bytes precede and
/// follow them; the read stops right after the last board.
pub proof fn lemma_boards_round_trip(bs: Seq<BoardView>, prefix: Seq<u8>, suffix: Seq<u8>)
    requires
        boards_ok(bs),
    ensures
        parse_all_boards(prefix + all_boards_bytes(bs) + suffix, prefix.len()) == Ok::<
            (Seq<BoardView>, nat),
            crate::error::KanbanErrorKind,
        >((bs, prefix.len() + all_boards_bytes(bs).len())),
{
    let b = prefix + all_boards_bytes(bs) + suffix;
    let pos = prefix.len();
    lemma_holds_inside(prefix, all_boards_bytes(bs), suffix);
    let n = leb128_bytes(bs.len());
    lemma_holds_at_split(b, pos, n, boards_bytes(bs));
    lemma_read_varint(b, pos, bs.len());
    lemma_read_boards(b, pos + n.len(), bs);
}

/// The file of a valid project, named by its identifier in hexadecimal, is
/// listed with the project's header.
pub proof fn lemma_project_file_listed(p: Project, name: Seq<char>, bytes: Seq<u8>)
    requires
        project_ok(p@),
        name == hex_upper(p@.id),
        bytes == project_bytes(p@),
    ensures
        file_header(name, bytes) == Some(header_of(p@)),
{
    lemma_hex_upper_shape(p@.id);
    assert(is_ascii_chars(name)) by {
        assert forall|i: int| 0 <= i < name.len() implies '\0' <= #[trigger] name[i] <= '\u{7f}' by {
            assert(crate::text::is_upper_hex_char(name[i]));
        }
    }
    is_ascii_chars_encode_utf8(name);
    let e = vstd::utf8::encode_utf8(name);
    assert forall|i: int| 0 <= i < 32 implies crate::store::is_hex_byte(#[trigger] e[i]) by {
        assert(crate::text::is_upper_hex_char(name[i]));
        assert(name[i] as u8 == e[i]);
    }
    assert(is_project_file_name(e));
    lemma_project_round_trip(p);
}

/// An empty file is never listed, whatever its name.
pub proof fn lemma_empty_file_skipped(name: Seq<char>, bytes: Seq<u8>)
    requires
        bytes.len() == 0,
    ensures
        file_header(name, bytes) is None,
{
    reveal(parse_header);
}

/// Listing two valid project files and an empty file between them gives
/// exactly the two projects' headers, in the files' order.
pub proof fn lemma_listing_skips_empty_file(
    a: Project,
    b: Project,
    file_a: ProjectFile,
    empty: ProjectFile,
    file_b: ProjectFile,
)
    requires
        project_ok(a@),
        project_ok(b@),
        file_a.name@ == hex_upper(a@.id),
        file_a.bytes@ == project_bytes(a@),
        file_b.name@ == hex_upper(b@.id),
        file_b.bytes@ == project_bytes(b@),
        empty.bytes@.len() == 0,
    ensures
        listed_headers(seq![file_a, empty, file_b]) == seq![header_of(a@), header_of(b@)],
{
    lemma_project_file_listed(a, file_a.name@, file_a.bytes@);
    lemma_project_file_listed(b, file_b.name@, file_b.bytes@);
    lemma_empty_file_skipped(empty.name@, empty.bytes@);
    let fs = seq![file_a, empty, file_b];
    assert(fs.drop_last() =~= seq![file_a, empty]);
    assert(fs.drop_last().drop_last() =~= seq![file_a]);
    assert(seq![file_a].drop_last() =~= Seq::<ProjectFile>::empty());
    assert(listed_headers(Seq::<ProjectFile>::empty()) =~= Seq::<ProjectView>::empty());
    assert(seq![file_a].last() == file_a);
    assert(listed_headers(seq![file_a]) =~= seq![header_of(a@)]);
    assert(listed_headers(seq![file_a, empty]) =~= seq![header_of(a@)]);
    assert(listed_headers(fs) =~= seq![header_of(a@), header_of(b@)]);
}

} // verus!
