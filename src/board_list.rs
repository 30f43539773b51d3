//! A list of a board: a title, a colour tag and its items, with its encoding.
use vstd::prelude::*;
use crate::error::{KanbanError, KanbanErrorKind};
use crate::format::{
    Parsed, parse_bytes, parse_varint, parse_text_with_length, short_text_bytes, long_text_bytes,
    long_text_fits,
};
use vstd::utf8::encode_utf8;
use crate::reader::BinaryReader;
use crate::varint::leb128_bytes;
use crate::writer::BinaryWriter;

verus! {

/// A list: a title (short string), an RGB colour and its items in order.
#[derive(Debug, Clone, PartialEq)]
pub struct BoardList {
    pub title: String,
    pub color: [u8; 3],
    pub items: Vec<String>,
}

/// The value of a list: its title, its three colour bytes and its items.
pub struct ListView {
    pub title: Seq<char>,
    pub color: Seq<u8>,
    pub items: Seq<Seq<char>>,
}

/// The characters of each string.
pub open spec fn strings_view(v: Seq<String>) -> Seq<Seq<char>> {
    v.map_values(|s: String| s@)
}

/// The value of each list.
pub open spec fn lists_view(v: Seq<BoardList>) -> Seq<ListView> {
    v.map_values(|l: BoardList| l@)
}

impl View for BoardList {
    type V = ListView;

    open spec fn view(&self) -> ListView {
        ListView { title: self.title@, color: self.color@, items: strings_view(self.items@) }
    }
}

/// The items, each as a long string, in order.
pub open spec fn items_bytes(items: Seq<Seq<char>>) -> Seq<u8>
    decreases items.len(),
{
    if items.len() == 0 {
        seq![]
    } else {
        items_bytes(items.drop_last()) + long_text_bytes(items.last())
    }
}

/// A list: title, colour, item count, items.
pub open spec fn list_bytes(l: ListView) -> Seq<u8> {
    short_text_bytes(l.title) + l.color + leb128_bytes(l.items.len()) + items_bytes(l.items)
}

/// The lists one after another.
pub open spec fn lists_bytes(ls: Seq<ListView>) -> Seq<u8>
    decreases ls.len(),
{
    if ls.len() == 0 {
        seq![]
    } else {
        lists_bytes(ls.drop_last()) + list_bytes(ls.last())
    }
}

/// A count of lists, then the lists.
pub open spec fn all_lists_bytes(ls: Seq<ListView>) -> Seq<u8> {
    leb128_bytes(ls.len()) + lists_bytes(ls)
}

/// Whether every item's length fits the 32-bit length field.
pub open spec fn items_fit(items: Seq<Seq<char>>) -> bool {
    forall|i: int| 0 <= i < items.len() ==> long_text_fits(#[trigger] items[i])
}

/// Whether a list's item count and item lengths fit their 32-bit fields.
pub open spec fn list_fits(l: ListView) -> bool {
    l.items.len() <= u32::MAX && items_fit(l.items)
}

/// Whether every list fits.
pub open spec fn lists_fit(ls: Seq<ListView>) -> bool {
    forall|i: int| 0 <= i < ls.len() ==> list_fits(#[trigger] ls[i])
}

/// `k` long strings from `pos`.
pub open spec fn parse_items(b: Seq<u8>, pos: nat, k: nat) -> Parsed<Seq<Seq<char>>>
    decreases k,
{
    if k == 0 {
        Ok((seq![], pos))
    } else {
        match parse_items(b, pos, (k - 1) as nat) {
            Ok((xs, p)) => match parse_text_with_length(b, p, false) {
                Ok((x, q)) => Ok((xs.push(x), q)),
                Err(e) => Err(e),
            },
            Err(e) => Err(e),
        }
    }
}

/// A list from `pos`.
#[verifier::opaque]
pub open spec fn parse_list(b: Seq<u8>, pos: nat) -> Parsed<ListView> {
    match parse_text_with_length(b, pos, true) {
        Ok((title, pos1)) => match parse_bytes(b, pos1, 3) {
            Ok((color, pos2)) => match parse_varint(b, pos2) {
                Ok((n, pos3)) => match parse_items(b, pos3, n) {
                    Ok((items, pos4)) => Ok((ListView { title, color, items }, pos4)),
                    Err(e) => Err(e),
                },
                Err(e) => Err(e),
            },
            Err(e) => Err(e),
        },
        Err(e) => Err(e),
    }
}

/// `k` lists from `pos`.
pub open spec fn parse_lists(b: Seq<u8>, pos: nat, k: nat) -> Parsed<Seq<ListView>>
    decreases k,
{
    if k == 0 {
        Ok((seq![], pos))
    } else {
        match parse_lists(b, pos, (k - 1) as nat) {
            Ok((xs, p)) => match parse_list(b, p) {
                Ok((x, q)) => Ok((xs.push(x), q)),
                Err(e) => Err(e),
            },
            Err(e) => Err(e),
        }
    }
}

/// A count of lists, then the lists, from `pos`.
pub open spec fn parse_all_lists(b: Seq<u8>, pos: nat) -> Parsed<Seq<ListView>> {
    match parse_varint(b, pos) {
        Ok((n, p)) => parse_lists(b, p, n),
        Err(e) => Err(e),
    }
}

/// The error of a count or a length that does not fit in 32 bits.
pub open spec fn is_count_error(e: KanbanError) -> bool {
    e.kind == KanbanErrorKind::NumberError
}

/// A count or a length of `n` as a 32-bit value.
pub(crate) fn count_field(n: usize) -> (r: Result<u32, KanbanError>)
    ensures
        n <= u32::MAX ==> (r matches Ok(x) && x == n),
        n > u32::MAX ==> (r matches Err(e) && is_count_error(e)),
{
    if n <= 0xFFFF_FFFF {
        Ok(n as u32)
    } else {
        Err(KanbanError::new(KanbanErrorKind::NumberError, "Failed to convert usize to u32"))
    }
}

/// Writes the strings as long strings, one after another. Fails, having
/// written the strings before it, at the first one of 2^32 bytes or more.
pub(crate) fn write_items(bw: &mut BinaryWriter, items: &Vec<String>) -> (r: Result<(), KanbanError>)
    ensures
        r is Ok <==> items_fit(strings_view(items@)),
        r is Ok ==> final(bw)@ == old(bw)@ + items_bytes(strings_view(items@)),
        r matches Err(e) ==> is_count_error(e) && old(bw)@.is_prefix_of(final(bw)@),
{
    let mut i: usize = 0;
    while i < items.len()
        invariant
            i <= items@.len(),
            items_fit(strings_view(items@.subrange(0, i as int))),
            bw@ == old(bw)@ + items_bytes(strings_view(items@.subrange(0, i as int))),
        decreases items@.len() - i,
    {
        let item: &str = items[i].as_str();
        let length: usize = item.as_bytes().len();
        match count_field(length) {
            Ok(_) => {},
            Err(e) => {
                proof {
                    assert(!long_text_fits(strings_view(items@)[i as int]));
                    assert forall|j: int| 0 <= j < old(bw)@.len() implies old(bw)@[j] == bw@[j] by {}
                }
                return Err(e);
            },
        }
        bw.write_string_with_length(item, false);
        proof {
            let v = strings_view(items@.subrange(0, i + 1));
            assert(v.drop_last() =~= strings_view(items@.subrange(0, i as int)));
            assert(v.last() == items@[i as int]@);
            assert forall|j: int| 0 <= j < v.len() implies long_text_fits(#[trigger] v[j]) by {
                if j < i {
                    assert(v[j] == strings_view(items@.subrange(0, i as int))[j]);
                }
            }
        }
        i = i + 1;
    }
    assert(items@.subrange(0, items@.len() as int) =~= items@);
    Ok(())
}

/// Writes one list: title, colour, item count and items. Fails, having
/// written part of the list, when the item count or an item's length does
/// not fit in 32 bits.
pub fn write_board_list(bw: &mut BinaryWriter, board_list: &BoardList) -> (r: Result<(), KanbanError>)
    ensures
        r is Ok <==> list_fits(board_list@),
        r is Ok ==> final(bw)@ == old(bw)@ + list_bytes(board_list@),
        r matches Err(e) ==> is_count_error(e) && old(bw)@.is_prefix_of(final(bw)@),
{
    bw.write_string_with_length(board_list.title.as_str(), true);
    bw.write_bytes(board_list.color.as_slice());
    let count = count_field(board_list.items.len())?;
    bw.write_leb128(count);
    let ghost mid = bw@;
    let written = write_items(bw, &board_list.items);
    proof {
        if written is Err {
            assert forall|j: int| 0 <= j < old(bw)@.len() implies old(bw)@[j] == bw@[j] by {
                assert(mid[j] == old(bw)@[j]);
            }
        }
    }
    written?;
    assert(final(bw)@ =~= old(bw)@ + list_bytes(board_list@));
    Ok(())
}

/// A failure among the first `k` items is the failure of any longer run.
pub proof fn lemma_parse_items_failed(b: Seq<u8>, pos: nat, k: nat, k2: nat)
    requires
        k <= k2,
        parse_items(b, pos, k) is Err,
    ensures
        parse_items(b, pos, k2) == parse_items(b, pos, k),
    decreases k2,
{
    if k2 > k {
        lemma_parse_items_failed(b, pos, k, (k2 - 1) as nat);
    }
}

/// A failure among the first `k` lists is the failure of any longer run.
pub proof fn lemma_parse_lists_failed(b: Seq<u8>, pos: nat, k: nat, k2: nat)
    requires
        k <= k2,
        parse_lists(b, pos, k) is Err,
    ensures
        parse_lists(b, pos, k2) == parse_lists(b, pos, k),
    decreases k2,
{
    if k2 > k {
        lemma_parse_lists_failed(b, pos, k, (k2 - 1) as nat);
    }
}

/// Reads `count` long strings.
pub(crate) fn read_items(br: &mut BinaryReader, count: usize) -> (r: Result<Vec<String>, KanbanError>)
    ensures
        final(br).bytes@ == old(br).bytes@,
        match parse_items(old(br).bytes@, old(br).address as nat, count as nat) {
            Ok((v, p)) => r matches Ok(x) && strings_view(x@) == v && final(br).address == p,
            Err(k) => r matches Err(e) && e.kind == k,
        },
{
    let ghost b = br.bytes@;
    let ghost pos = br.address as nat;
    let mut items: Vec<String> = Vec::new();
    let mut i: usize = 0;
    assert(strings_view(items@) =~= seq![]);
    while i < count
        invariant
            i <= count,
            br.bytes@ == b,
            b == old(br).bytes@,
            pos == old(br).address,
            parse_items(b, pos, i as nat) == Ok::<(Seq<Seq<char>>, nat), KanbanErrorKind>(
                (strings_view(items@), br.address as nat),
            ),
        decreases count - i,
    {
        match br.next_string() {
            Ok(item) => {
                let ghost prev = items@;
                items.push(item);
                assert(strings_view(items@) =~= strings_view(prev).push(item@));
                i = i + 1;
            },
            Err(e) => {
                proof {
                    lemma_parse_items_failed(b, pos, (i + 1) as nat, count as nat);
                }
                return Err(e);
            },
        }
    }
    Ok(items)
}

/// Reads one list: title, colour, item count and items.
pub fn read_board_list(br: &mut BinaryReader) -> (r: Result<BoardList, KanbanError>)
    ensures
        final(br).bytes@ == old(br).bytes@,
        match parse_list(old(br).bytes@, old(br).address as nat) {
            Ok((v, p)) => r matches Ok(x) && x@ == v && final(br).address == p,
            Err(k) => r matches Err(e) && e.kind == k,
        },
{
    reveal(parse_list);
    let title: String = br.next_string_with_length(true)?;
    let color_bytes: Vec<u8> = br.next_bytes(3)?;
    let color: [u8; 3] = [color_bytes[0], color_bytes[1], color_bytes[2]];
    assert(color@ =~= color_bytes@);
    let count: usize = br.next_leb128_number()?;
    let items: Vec<String> = read_items(br, count)?;
    Ok(BoardList { title, color, items })
}

/// Writes a count of lists, then each list.
pub fn write_all_board_lists(bw: &mut BinaryWriter, board_lists: &[BoardList]) -> (r: Result<
    (),
    KanbanError,
>)
    ensures
        r is Ok <==> board_lists@.len() <= u32::MAX && lists_fit(lists_view(board_lists@)),
        r is Ok ==> final(bw)@ == old(bw)@ + all_lists_bytes(lists_view(board_lists@)),
        r matches Err(e) ==> is_count_error(e) && old(bw)@.is_prefix_of(final(bw)@),
{
    let count = count_field(board_lists.len())?;
    bw.write_leb128(count);
    let ghost start = bw@;
    let mut i: usize = 0;
    while i < board_lists.len()
        invariant
            i <= board_lists@.len(),
            start == old(bw)@ + leb128_bytes(board_lists@.len()),
            lists_fit(lists_view(board_lists@.subrange(0, i as int))),
            bw@ == start + lists_bytes(lists_view(board_lists@.subrange(0, i as int))),
        decreases board_lists@.len() - i,
    {
        let ghost before = bw@;
        match write_board_list(bw, &board_lists[i]) {
            Ok(()) => {},
            Err(e) => {
                proof {
                    assert(!list_fits(lists_view(board_lists@)[i as int]));
                    assert(old(bw)@.is_prefix_of(before));
                    assert(before.is_prefix_of(bw@));
                    assert(old(bw)@.is_prefix_of(bw@)) by {
                        assert forall|j: int| 0 <= j < old(bw)@.len() implies old(bw)@[j] == bw@[j] by {
                            assert(before[j] == old(bw)@[j]);
                        }
                    }
                }
                return Err(e);
            },
        }
        proof {
            let v = lists_view(board_lists@.subrange(0, i + 1));
            assert(v.drop_last() =~= lists_view(board_lists@.subrange(0, i as int)));
            assert(v.last() == board_lists@[i as int]@);
            assert forall|j: int| 0 <= j < v.len() implies list_fits(#[trigger] v[j]) by {
                if j < i {
                    assert(v[j] == lists_view(board_lists@.subrange(0, i as int))[j]);
                }
            }
        }
        i = i + 1;
    }
    assert(board_lists@.subrange(0, board_lists@.len() as int) =~= board_lists@);
    Ok(())
}

/// Reads a count of lists, then each list.
pub fn read_all_board_lists(br: &mut BinaryReader) -> (r: Result<Vec<BoardList>, KanbanError>)
    ensures
        final(br).bytes@ == old(br).bytes@,
        match parse_all_lists(old(br).bytes@, old(br).address as nat) {
            Ok((v, p)) => r matches Ok(x) && lists_view(x@) == v && final(br).address == p,
            Err(k) => r matches Err(e) && e.kind == k,
        },
{
    let count: usize = br.next_leb128_number()?;
    let ghost b = br.bytes@;
    let ghost pos = br.address as nat;
    let mut lists: Vec<BoardList> = Vec::new();
    let mut i: usize = 0;
    assert(lists_view(lists@) =~= seq![]);
    while i < count
        invariant
            i <= count,
            br.bytes@ == b,
            b == old(br).bytes@,
            parse_varint(b, old(br).address as nat) == Ok::<(nat, nat), KanbanErrorKind>(
                (count as nat, pos),
            ),
            parse_lists(b, pos, i as nat) == Ok::<(Seq<ListView>, nat), KanbanErrorKind>(
                (lists_view(lists@), br.address as nat),
            ),
        decreases count - i,
    {
        match read_board_list(br) {
            Ok(list) => {
                let ghost prev = lists@;
                let ghost lv = list@;
                lists.push(list);
                assert(lists_view(lists@) =~= lists_view(prev).push(lv));
                i = i + 1;
            },
            Err(e) => {
                proof {
                    lemma_parse_lists_failed(b, pos, (i + 1) as nat, count as nat);
                }
                return Err(e);
            },
        }
    }
    Ok(lists)
}

} // verus!
