//! A project document: identifier, name, description and boards, with the
//! layout of a project file.
use vstd::prelude::*;
use crate::board::{
    Board, BoardView, boards_view, all_boards_bytes, boards_fit, parse_all_boards, write_all_boards,
    read_all_boards,
};
use crate::board_list::is_count_error;
use crate::error::{KanbanError, KanbanErrorKind};
use crate::format::{
    Parsed, parse_byte, parse_bytes, parse_text_with_length, short_text_bytes, long_text_bytes,
    long_text_fits,
};
use crate::board_list::count_field;
use vstd::utf8::encode_utf8;
use crate::reader::BinaryReader;
use crate::writer::BinaryWriter;

verus! {

/// The only version of the file format.
pub const FILE_VERSION: u8 = 0;

/// A project: a 16-byte identifier naming its file, a name, a description and
/// its boards in order.
#[derive(Debug, Clone, PartialEq)]
pub struct Project {
    pub id: [u8; 16],
    pub name: String,
    pub description: String,
    pub boards: Vec<Board>,
}

/// The value of a project.
pub struct ProjectView {
    pub id: Seq<u8>,
    pub name: Seq<char>,
    pub description: Seq<char>,
    pub boards: Seq<BoardView>,
}

impl View for Project {
    type V = ProjectView;

    open spec fn view(&self) -> ProjectView {
        ProjectView {
            id: self.id@,
            name: self.name@,
            description: self.description@,
            boards: boards_view(self.boards@),
        }
    }
}

/// The header of a project file: version, identifier, name (short string),
/// description (long string).
pub open spec fn header_bytes(id: Seq<u8>, name: Seq<char>, description: Seq<char>) -> Seq<u8> {
    seq![FILE_VERSION] + id + short_text_bytes(name) + long_text_bytes(description)
}

/// A whole project file: the header, then a count of boards and the boards.
pub open spec fn project_bytes(p: ProjectView) -> Seq<u8> {
    header_bytes(p.id, p.name, p.description) + all_boards_bytes(p.boards)
}

/// What a header read gives for a project: the project without its boards.
pub open spec fn header_of(p: ProjectView) -> ProjectView {
    ProjectView { id: p.id, name: p.name, description: p.description, boards: seq![] }
}

/// Whether every count and long-string length of the project fits its
/// 32-bit field.
pub open spec fn project_fits(p: ProjectView) -> bool {
    long_text_fits(p.description) && p.boards.len() <= u32::MAX && boards_fit(p.boards)
}

/// The message of a file of another version.
pub open spec fn version_message() -> Seq<char> {
    "Project version not supported"@
}

/// The header of a project file, as a project without boards.
#[verifier::opaque]
pub open spec fn parse_header(b: Seq<u8>) -> Parsed<ProjectView> {
    match parse_byte(b, 0) {
        Ok((version, pos0)) => if version != FILE_VERSION {
            Err(KanbanErrorKind::ProjectError)
        } else {
            match parse_bytes(b, pos0, 16) {
                Ok((id, pos1)) => match parse_text_with_length(b, pos1, true) {
                    Ok((name, pos2)) => match parse_text_with_length(b, pos2, false) {
                        Ok((description, pos3)) => Ok(
                            (ProjectView { id, name, description, boards: seq![] }, pos3),
                        ),
                        Err(e) => Err(e),
                    },
                    Err(e) => Err(e),
                },
                Err(e) => Err(e),
            }
        },
        Err(e) => Err(e),
    }
}

/// A whole project file: the header, then the boards.
pub open spec fn parse_project(b: Seq<u8>) -> Parsed<ProjectView> {
    match parse_header(b) {
        Ok((h, p)) => match parse_all_boards(b, p) {
            Ok((boards, q)) => Ok(
                (ProjectView { id: h.id, name: h.name, description: h.description, boards }, q),
            ),
            Err(e) => Err(e),
        },
        Err(e) => Err(e),
    }
}

/// Writes the header of a project file. The description's byte length must
/// fit in 32 bits.
pub fn write_project_header(bw: &mut BinaryWriter, id: &[u8; 16], name: &str, description: &str)
    requires
        encode_utf8(description@).len() <= u32::MAX,
    ensures
        final(bw)@ == old(bw)@ + header_bytes(id@, name@, description@),
{
    bw.write_byte(FILE_VERSION);
    bw.write_bytes(id.as_slice());
    bw.write_string_with_length(name, true);
    bw.write_string_with_length(description, false);
    assert(bw@ =~= old(bw)@ + header_bytes(id@, name@, description@));
}

/// The bytes of a project file for `project`: its header, then all its boards.
/// Fails only when a count or a long string's length does not fit in 32 bits.
pub fn encode_project(project: &Project) -> (r: Result<Vec<u8>, KanbanError>)
    ensures
        r is Ok <==> project_fits(project@),
        r matches Ok(v) ==> v@ == project_bytes(project@),
        r matches Err(e) ==> is_count_error(e),
{
    count_field(project.description.as_str().as_bytes().len())?;
    let mut bw = BinaryWriter::new();
    write_project_header(&mut bw, &project.id, project.name.as_str(), project.description.as_str());
    write_all_boards(&mut bw, project.boards.as_slice())?;
    assert(bw@ =~= project_bytes(project@));
    Ok(bw.bytes)
}

/// Reads the header fields of a project file from the cursor's position,
/// which must be the start of the file.
fn read_header(br: &mut BinaryReader) -> (r: Result<Project, KanbanError>)
    requires
        old(br).address == 0,
    ensures
        final(br).bytes@ == old(br).bytes@,
        match parse_header(old(br).bytes@) {
            Ok((v, p)) => r matches Ok(x) && x@ == v && final(br).address == p,
            Err(k) => r matches Err(e) && e.kind == k,
        },
        old(br).bytes@.len() > 0 && old(br).bytes@[0] != FILE_VERSION ==> (r matches Err(e)
            && e.kind == KanbanErrorKind::ProjectError && e.message@ == version_message()),
{
    reveal(parse_header);
    let version: u8 = br.next_byte()?;
    if version != FILE_VERSION {
        return Err(KanbanError::new(KanbanErrorKind::ProjectError, "Project version not supported"));
    }
    let id_bytes: Vec<u8> = br.next_bytes(16)?;
    let id: [u8; 16] = [
        id_bytes[0],
        id_bytes[1],
        id_bytes[2],
        id_bytes[3],
        id_bytes[4],
        id_bytes[5],
        id_bytes[6],
        id_bytes[7],
        id_bytes[8],
        id_bytes[9],
        id_bytes[10],
        id_bytes[11],
        id_bytes[12],
        id_bytes[13],
        id_bytes[14],
        id_bytes[15],
    ];
    assert(id@ =~= id_bytes@);
    let name: String = br.next_string_with_length(true)?;
    let description: String = br.next_string_with_length(false)?;
    let boards: Vec<Board> = Vec::new();
    assert(boards_view(boards@) =~= seq![]);
    Ok(Project { id, name, description, boards })
}

/// Decodes only the header of a project file: its version, identifier, name
/// and description. The project has no boards.
pub fn read_project_info(bytes: &[u8]) -> (r: Result<Project, KanbanError>)
    ensures
        match parse_header(bytes@) {
            Ok((v, _)) => r matches Ok(x) && x@ == v,
            Err(k) => r matches Err(e) && e.kind == k,
        },
        bytes@.len() > 0 && bytes@[0] != FILE_VERSION ==> (r matches Err(e) && e.kind
            == KanbanErrorKind::ProjectError && e.message@ == version_message()),
{
    let mut br = BinaryReader::new(bytes);
    read_header(&mut br)
}

/// Decodes a whole project file: its header, then all its boards. Bytes after
/// the last board are not read.
pub fn read_project(bytes: &[u8]) -> (r: Result<Project, KanbanError>)
    ensures
        match parse_project(bytes@) {
            Ok((v, _)) => r matches Ok(x) && x@ == v,
            Err(k) => r matches Err(e) && e.kind == k,
        },
        bytes@.len() > 0 && bytes@[0] != FILE_VERSION ==> (r matches Err(e) && e.kind
            == KanbanErrorKind::ProjectError && e.message@ == version_message()),
{
    let mut br = BinaryReader::new(bytes);
    let header = read_header(&mut br)?;
    let boards: Vec<Board> = read_all_boards(&mut br)?;
    Ok(Project { id: header.id, name: header.name, description: header.description, boards })
}

} // verus!
