//! Storage core of a kanban application: a checked byte cursor, a growable
//! byte sink, the binary codec of project documents and the rules of the
//! project file store.
use vstd::prelude::*;

pub mod error;
pub mod text;
pub mod varint;
pub mod format;
pub mod writer;
pub mod reader;
pub mod board_list;
pub mod board;
pub mod project;
pub mod store;
pub mod laws;
pub mod config;
pub mod command;

pub use error::{KanbanError, KanbanErrorKind};
pub use reader::BinaryReader;
pub use writer::BinaryWriter;
pub use board_list::{BoardList, write_board_list, write_all_board_lists, read_board_list, read_all_board_lists};
pub use board::{Board, write_board, write_all_boards, read_board, read_all_boards};
pub use project::{Project, FILE_VERSION, write_project_header, encode_project, read_project_info, read_project};
pub use store::{
    PROJECT_PATH, ProjectFile, project_file_name, content_file_name, check_project_file_name,
    validate_project_fields, create_project, get_all_projects_info,
};
pub use config::Configs;
pub use command::CommandResult;

verus! {

} // verus!
