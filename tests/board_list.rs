use kanban::{read_all_board_lists, read_board_list, write_all_board_lists, write_board_list};
use kanban::{BinaryReader, BinaryWriter, BoardList, KanbanErrorKind};

fn test_list_1() -> BoardList {
    BoardList {
        title: "Test Board 1".to_string(),
        color: [0xFF, 0xFF, 0xFF],
        items: ["Item 1", "Item 2", "Item 3"].map(|s| s.to_string()).to_vec(),
    }
}

fn test_list_2() -> BoardList {
    BoardList {
        title: "Test Board 2".to_string(),
        color: [0x00, 0x00, 0x00],
        items: ["Item 1", "Item 2"].map(|s| s.to_string()).to_vec(),
    }
}

fn test_list_3() -> BoardList {
    BoardList {
        title: "Test Board 3".to_string(),
        color: [0xaa, 0xaa, 0xaa],
        items: ["Item 1"].map(|s| s.to_string()).to_vec(),
    }
}

#[test]
fn test_write_board_list() {
    let test_list = BoardList {
        title: "Test List 1".to_string(),
        color: [0xFF, 0xFF, 0xFF],
        items: ["Test Item 1", "Test Item 2", "Test Item 3"]
            .iter()
            .map(|s| s.to_string())
            .collect::<Vec<String>>(),
    };
    let expected_data = [
        0x0B, 0x54, 0x65, 0x73, 0x74, 0x20, 0x4C, 0x69, 0x73, 0x74, 0x20, 0x31, 0xFF, 0xFF,
        0xFF, 0x03, 0x0B, 0x54, 0x65, 0x73, 0x74, 0x20, 0x49, 0x74, 0x65, 0x6D, 0x20, 0x31,
        0x0B, 0x54, 0x65, 0x73, 0x74, 0x20, 0x49, 0x74, 0x65, 0x6D, 0x20, 0x32, 0x0B, 0x54,
        0x65, 0x73, 0x74, 0x20, 0x49, 0x74, 0x65, 0x6D, 0x20, 0x33,
    ];
    let mut bw = BinaryWriter::new();
    let result = write_board_list(&mut bw, &test_list);
    assert!(result.is_ok());
    assert_eq!(&expected_data, bw.as_bytes());
}

#[test]
fn test_write_all_board_lists() {
    let mut bw = BinaryWriter::new();
    let result = write_all_board_lists(&mut bw, &[test_list_1(), test_list_2(), test_list_3()]);
    assert!(result.is_ok());
    let expected_bytes = &[
        0x03, 0x0C, 0x54, 0x65, 0x73, 0x74, 0x20, 0x42, 0x6F, 0x61, 0x72, 0x64, 0x20, 0x31,
        0xFF, 0xFF, 0xFF, 0x03, 0x06, 0x49, 0x74, 0x65, 0x6D, 0x20, 0x31, 0x06, 0x49, 0x74,
        0x65, 0x6D, 0x20, 0x32, 0x06, 0x49, 0x74, 0x65, 0x6D, 0x20, 0x33, 0x0C, 0x54, 0x65,
        0x73, 0x74, 0x20, 0x42, 0x6F, 0x61, 0x72, 0x64, 0x20, 0x32, 0x00, 0x00, 0x00, 0x02,
        0x06, 0x49, 0x74, 0x65, 0x6D, 0x20, 0x31, 0x06, 0x49, 0x74, 0x65, 0x6D, 0x20, 0x32,
        0x0C, 0x54, 0x65, 0x73, 0x74, 0x20, 0x42, 0x6F, 0x61, 0x72, 0x64, 0x20, 0x33, 0xAA,
        0xAA, 0xAA, 0x01, 0x06, 0x49, 0x74, 0x65, 0x6D, 0x20, 0x31,
    ];
    assert_eq!(expected_bytes, bw.as_bytes());
}

#[test]
fn test_read_board_list() {
    let test_data = [
        0x0B, 0x54, 0x65, 0x73, 0x74, 0x20, 0x4C, 0x69, 0x73, 0x74, 0x20, 0x31, 0xFF, 0xFF,
        0xFF, 0x03, 0x0B, 0x54, 0x65, 0x73, 0x74, 0x20, 0x49, 0x74, 0x65, 0x6D, 0x20, 0x31,
        0x0B, 0x54, 0x65, 0x73, 0x74, 0x20, 0x49, 0x74, 0x65, 0x6D, 0x20, 0x32, 0x0B, 0x54,
        0x65, 0x73, 0x74, 0x20, 0x49, 0x74, 0x65, 0x6D, 0x20, 0x33,
    ];
    let expected_list = BoardList {
        title: "Test List 1".to_string(),
        color: [0xFF, 0xFF, 0xFF],
        items: ["Test Item 1", "Test Item 2", "Test Item 3"]
            .iter()
            .map(|s| s.to_string())
            .collect::<Vec<String>>(),
    };
    let mut br = BinaryReader::new(&test_data);
    let result = read_board_list(&mut br);
    assert!(result.is_ok());
    assert_eq!(expected_list, result.unwrap());
}

#[test]
fn test_read_all_board_lists() {
    let test_data = [
        0x03, 0x0C, 0x54, 0x65, 0x73, 0x74, 0x20, 0x42, 0x6F, 0x61, 0x72, 0x64, 0x20, 0x31,
        0xFF, 0xFF, 0xFF, 0x03, 0x06, 0x49, 0x74, 0x65, 0x6D, 0x20, 0x31, 0x06, 0x49, 0x74,
        0x65, 0x6D, 0x20, 0x32, 0x06, 0x49, 0x74, 0x65, 0x6D, 0x20, 0x33, 0x0C, 0x54, 0x65,
        0x73, 0x74, 0x20, 0x42, 0x6F, 0x61, 0x72, 0x64, 0x20, 0x32, 0x00, 0x00, 0x00, 0x02,
        0x06, 0x49, 0x74, 0x65, 0x6D, 0x20, 0x31, 0x06, 0x49, 0x74, 0x65, 0x6D, 0x20, 0x32,
        0x0C, 0x54, 0x65, 0x73, 0x74, 0x20, 0x42, 0x6F, 0x61, 0x72, 0x64, 0x20, 0x33, 0xAA,
        0xAA, 0xAA, 0x01, 0x06, 0x49, 0x74, 0x65, 0x6D, 0x20, 0x31,
    ];
    let expected_lists = [test_list_1(), test_list_2(), test_list_3()];
    let mut br = BinaryReader::new(&test_data);
    let result = read_all_board_lists(&mut br);
    assert!(result.is_ok());
    assert_eq!(expected_lists.to_vec(), result.unwrap());
    assert_eq!(test_data.len(), br.address);
}

#[test]
fn truncated_list_is_a_bounds_error() {
    let test_data = [
        0x0B, 0x54, 0x65, 0x73, 0x74, 0x20, 0x4C, 0x69, 0x73, 0x74, 0x20, 0x31, 0xFF, 0xFF,
        0xFF, 0x03, 0x0B, 0x54, 0x65, 0x73, 0x74, 0x20, 0x49, 0x74, 0x65, 0x6D, 0x20, 0x31,
        0x0B, 0x54, 0x65, 0x73, 0x74, 0x20, 0x49, 0x74, 0x65, 0x6D, 0x20, 0x32, 0x0B, 0x54,
        0x65, 0x73, 0x74, 0x20, 0x49, 0x74, 0x65,
    ];
    let mut br = BinaryReader::new(&test_data);
    let err = read_board_list(&mut br).unwrap_err();
    assert_eq!(KanbanErrorKind::ProjectError, err.kind);
}

#[test]
fn list_without_colour_is_a_bounds_error() {
    let mut br = BinaryReader::new(&[0x01, 0x41, 0x00]);
    assert_eq!(KanbanErrorKind::ProjectError, read_board_list(&mut br).unwrap_err().kind);
}

#[test]
fn empty_list_round_trips() {
    let list = BoardList { title: String::new(), color: [1, 2, 3], items: Vec::new() };
    let mut bw = BinaryWriter::new();
    write_board_list(&mut bw, &list).unwrap();
    assert_eq!(&[0x00, 0x01, 0x02, 0x03, 0x00], bw.as_bytes());
    let mut br = BinaryReader::new(bw.as_bytes());
    assert_eq!(list, read_board_list(&mut br).unwrap());
}

#[test]
fn lists_read_back_between_other_bytes() {
    let lists = vec![test_list_1(), test_list_2(), test_list_3()];
    let mut bw = BinaryWriter::new();
    bw.write_bytes(&[0xEE, 0xEE]);
    write_all_board_lists(&mut bw, &lists).unwrap();
    let end = bw.as_bytes().len();
    bw.write_bytes(&[0x05, 0x06, 0x07]);
    let mut br = BinaryReader::new(bw.as_bytes());
    br.address = 2;
    assert_eq!(lists, read_all_board_lists(&mut br).unwrap());
    assert_eq!(end, br.address);
}
