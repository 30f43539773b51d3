//! The rules of the project store: how files are named, what a new project
//! must satisfy, and which files of the project directory are listed.
use vstd::prelude::*;
use vstd::utf8::encode_utf8;
use crate::board::Board;
use crate::error::{KanbanError, KanbanErrorKind};
use crate::project::{Project, ProjectView, parse_header, read_project_info};
use crate::text::{hex_upper, to_hex_upper};

verus! {

/// The directory, under the application's data directory, that holds one
/// file per project.
pub const PROJECT_PATH: &'static str = "projects";

/// The longest project name, in bytes.
pub const MAX_NAME_LEN: usize = 256;

/// The message of an identifier of the wrong shape.
pub open spec fn invalid_id_message() -> Seq<char> {
    "Invalid project ID"@
}

/// The message of a missing name or description.
pub open spec fn empty_fields_message() -> Seq<char> {
    "Empty Name or Description: The name and description of the project must not be empty"@
}

/// The message of a name over the limit.
pub open spec fn name_too_long_message() -> Seq<char> {
    "Name too long: Project name must be between 1 and 256 characters"@
}

/// The message of file content too short to hold a header.
pub open spec fn missing_header_message() -> Seq<char> {
    "Missing project header"@
}

/// Whether a byte is an ASCII hexadecimal digit of either case.
pub open spec fn is_hex_byte(c: u8) -> bool {
    (48 <= c && c <= 57) || (65 <= c && c <= 70) || (97 <= c && c <= 102)
}

/// Whether a file name can name a project: exactly 32 hexadecimal digits.
pub open spec fn is_project_file_name(name: Seq<u8>) -> bool {
    name.len() == 32 && forall|i: int| 0 <= i < 32 ==> is_hex_byte(#[trigger] name[i])
}

/// Whether a name and a description may form a new project: neither empty,
/// the name at most 256 bytes.
pub open spec fn valid_project_fields(name: Seq<char>, description: Seq<char>) -> bool {
    name.len() > 0 && description.len() > 0 && encode_utf8(name).len() <= 256
}

/// The name of the file of the project with identifier `id`.
pub fn project_file_name(id: &[u8]) -> (r: Result<String, KanbanError>)
    ensures
        id@.len() == 16 ==> (r matches Ok(s) && s@ == hex_upper(id@)),
        id@.len() != 16 ==> (r matches Err(e) && e.kind == KanbanErrorKind::ProjectError
            && e.message@ == invalid_id_message()),
{
    if id.len() != 16 {
        return Err(KanbanError::new(KanbanErrorKind::ProjectError, "Invalid project ID"));
    }
    Ok(to_hex_upper(id))
}

/// The name of the file that project-file content belongs in, taken from the
/// identifier in its header. Content under 20 bytes cannot hold a header.
pub fn content_file_name(content: &[u8]) -> (r: Result<String, KanbanError>)
    ensures
        content@.len() >= 20 ==> (r matches Ok(s) && s@ == hex_upper(content@.subrange(1, 17))),
        content@.len() < 20 ==> (r matches Err(e) && e.kind == KanbanErrorKind::ProjectError
            && e.message@ == missing_header_message()),
{
    if content.len() < 20 {
        return Err(KanbanError::new(KanbanErrorKind::ProjectError, "Missing project header"));
    }
    Ok(to_hex_upper(vstd::slice::slice_subrange(content, 1, 17)))
}

/// Accepts exactly the names of 32 hexadecimal digits.
pub fn check_project_file_name(name: &str) -> (r: Result<(), KanbanError>)
    ensures
        r is Ok <==> is_project_file_name(encode_utf8(name@)),
        r matches Err(e) ==> e.kind == KanbanErrorKind::ProjectError && e.message@
            == invalid_id_message(),
{
    let bytes: &[u8] = name.as_bytes();
    if bytes.len() != 32 {
        return Err(KanbanError::new(KanbanErrorKind::ProjectError, "Invalid project ID"));
    }
    let mut i: usize = 0;
    while i < 32
        invariant
            bytes@.len() == 32,
            bytes@ == encode_utf8(name@),
            i <= 32,
            forall|j: int| 0 <= j < i ==> is_hex_byte(#[trigger] bytes@[j]),
        decreases 32 - i,
    {
        let c: u8 = bytes[i];
        if !((48 <= c && c <= 57) || (65 <= c && c <= 70) || (97 <= c && c <= 102)) {
            return Err(KanbanError::new(KanbanErrorKind::ProjectError, "Invalid project ID"));
        }
        i = i + 1;
    }
    Ok(())
}

/// Accepts a name and a description for a new project, or says which rule
/// they break: emptiness first, then the name's length.
pub fn validate_project_fields(name: &str, description: &str) -> (r: Result<(), KanbanError>)
    ensures
        r is Ok <==> valid_project_fields(name@, description@),
        r matches Err(e) ==> e.kind == KanbanErrorKind::ProjectError,
        (name@.len() == 0 || description@.len() == 0) ==> (r matches Err(e) && e.message@
            == empty_fields_message()),
        name@.len() > 0 && description@.len() > 0 && encode_utf8(name@).len() > 256 ==> (r matches Err(
            e,
        ) && e.message@ == name_too_long_message()),
{
    let name_bytes: &[u8] = name.as_bytes();
    let description_bytes: &[u8] = description.as_bytes();
    proof {
        vstd::utf8::encode_utf8_decode_utf8(name@);
        vstd::utf8::encode_utf8_decode_utf8(description@);
    }
    if name_bytes.len() == 0 || description_bytes.len() == 0 {
        proof {
            assert(encode_utf8(name@).len() == 0 ==> name@.len() == 0) by {
                if encode_utf8(name@).len() == 0 {
                    assert(encode_utf8(name@) =~= Seq::<u8>::empty());
                }
            }
            assert(encode_utf8(description@).len() == 0 ==> description@.len() == 0) by {
                if encode_utf8(description@).len() == 0 {
                    assert(encode_utf8(description@) =~= Seq::<u8>::empty());
                }
            }
        }
        return Err(KanbanError::new(
            KanbanErrorKind::ProjectError,
            "Empty Name or Description: The name and description of the project must not be empty",
        ));
    }
    if name_bytes.len() > MAX_NAME_LEN {
        return Err(KanbanError::new(
            KanbanErrorKind::ProjectError,
            "Name too long: Project name must be between 1 and 256 characters",
        ));
    }
    Ok(())
}

/// Relies on `uuid::Uuid::new_v4`: sixteen random bytes in which the version
/// nibble reads 4 and the two variant bits read `10`.
#[verifier::external_body]
fn random_project_id() -> (r: [u8; 16])
    ensures
        r@[6] / 16 == 4,
        r@[8] / 64 == 2,
{
    uuid::Uuid::new_v4().into_bytes()
}

/// A new project with a fresh random identifier and no boards, once the name
/// and description pass validation. Writing its file is the caller's part.
pub fn create_project(name: &str, description: &str) -> (r: Result<Project, KanbanError>)
    ensures
        r is Ok <==> valid_project_fields(name@, description@),
        r matches Ok(p) ==> p.name@ == name@ && p.description@ == description@ && p.boards@.len()
            == 0 && p.id@[6] / 16 == 4 && p.id@[8] / 64 == 2,
        r matches Err(e) ==> e.kind == KanbanErrorKind::ProjectError,
        (name@.len() == 0 || description@.len() == 0) ==> (r matches Err(e) && e.message@
            == empty_fields_message()),
        name@.len() > 0 && description@.len() > 0 && encode_utf8(name@).len() > 256 ==> (r matches Err(
            e,
        ) && e.message@ == name_too_long_message()),
{
    validate_project_fields(name, description)?;
    let id: [u8; 16] = random_project_id();
    let boards: Vec<Board> = Vec::new();
    Ok(Project { id, name: name.to_owned(), description: description.to_owned(), boards })
}

/// A file of the project directory: its name and its content.
pub struct ProjectFile {
    pub name: String,
    pub bytes: Vec<u8>,
}

/// The header of a file when its name can name a project and its content
/// holds a readable header.
pub open spec fn file_header(name: Seq<char>, bytes: Seq<u8>) -> Option<ProjectView> {
    if is_project_file_name(encode_utf8(name)) {
        match parse_header(bytes) {
            Ok((v, _)) => Some(v),
            Err(_) => None,
        }
    } else {
        None
    }
}

/// The headers of the files that have one, in the files' order.
pub open spec fn listed_headers(files: Seq<ProjectFile>) -> Seq<ProjectView>
    decreases files.len(),
{
    if files.len() == 0 {
        seq![]
    } else {
        let rest = listed_headers(files.drop_last());
        match file_header(files.last().name@, files.last().bytes@) {
            Some(v) => rest.push(v),
            None => rest,
        }
    }
}

/// The value of each project.
pub open spec fn projects_view(v: Seq<Project>) -> Seq<ProjectView> {
    v.map_values(|p: Project| p@)
}

/// The headers of the project files among `files`; a file with another name
/// or with content that does not decode is left out.
pub fn get_all_projects_info(files: &[ProjectFile]) -> (r: Vec<Project>)
    ensures
        projects_view(r@) == listed_headers(files@),
{
    let mut projects: Vec<Project> = Vec::new();
    let mut i: usize = 0;
    while i < files.len()
        invariant
            i <= files@.len(),
            projects_view(projects@) == listed_headers(files@.subrange(0, i as int)),
        decreases files@.len() - i,
    {
        let file: &ProjectFile = &files[i];
        let ghost prev = projects@;
        proof {
            let s = files@.subrange(0, i + 1);
            assert(s.drop_last() =~= files@.subrange(0, i as int));
            assert(s.last() == files@[i as int]);
        }
        if check_project_file_name(file.name.as_str()).is_ok() {
            match read_project_info(file.bytes.as_slice()) {
                Ok(project) => {
                    let ghost pv = project@;
                    projects.push(project);
                    assert(projects_view(projects@) =~= projects_view(prev).push(pv));
                },
                Err(_) => {},
            }
        }
        i = i + 1;
    }
    assert(files@.subrange(0, files@.len() as int) =~= files@);
    projects
}

} // verus!
