use kanban::{read_all_boards, read_board, write_all_boards, write_board};
use kanban::{BinaryReader, BinaryWriter, Board, BoardList, KanbanErrorKind};

fn test_list_1() -> BoardList {
    BoardList {
        title: "Test Board 1".to_string(),
        color: [0xFF, 0xFF, 0xFF],
        items: ["Item 1", "Item 2", "Item 3"].map(|s| s.to_string()).to_vec(),
    }
}

fn test_list_2() -> BoardList {
    BoardList {
        title: "Test Board 2".to_string(),
        color: [0x00, 0x00, 0x00],
        items: ["Item 1", "Item 2"].map(|s| s.to_string()).to_vec(),
    }
}

fn test_list_3() -> BoardList {
    BoardList {
        title: "Test Board 3".to_string(),
        color: [0xaa, 0xaa, 0xaa],
        items: ["Item 1"].map(|s| s.to_string()).to_vec(),
    }
}

fn test_board() -> Board {
    Board {
        name: "Test Board".to_string(),
        lists: [test_list_1(), test_list_2(), test_list_3()].to_vec(),
    }
}

#[test]
fn test_write_board() {
    let mut bw = BinaryWriter::new();
    let result = write_board(&mut bw, &test_board());
    assert!(result.is_ok());
    let expected_bytes = &[
        0x0A, 0x54, 0x65, 0x73, 0x74, 0x20, 0x42, 0x6F, 0x61, 0x72, 0x64, 0x03, 0x0C, 0x54,
        0x65, 0x73, 0x74, 0x20, 0x42, 0x6F, 0x61, 0x72, 0x64, 0x20, 0x31, 0xFF, 0xFF, 0xFF,
        0x03, 0x06, 0x49, 0x74, 0x65, 0x6D, 0x20, 0x31, 0x06, 0x49, 0x74, 0x65, 0x6D, 0x20,
        0x32, 0x06, 0x49, 0x74, 0x65, 0x6D, 0x20, 0x33, 0x0C, 0x54, 0x65, 0x73, 0x74, 0x20,
        0x42, 0x6F, 0x61, 0x72, 0x64, 0x20, 0x32, 0x00, 0x00, 0x00, 0x02, 0x06, 0x49, 0x74,
        0x65, 0x6D, 0x20, 0x31, 0x06, 0x49, 0x74, 0x65, 0x6D, 0x20, 0x32, 0x0C, 0x54, 0x65,
        0x73, 0x74, 0x20, 0x42, 0x6F, 0x61, 0x72, 0x64, 0x20, 0x33, 0xAA, 0xAA, 0xAA, 0x01,
        0x06, 0x49, 0x74, 0x65, 0x6D, 0x20, 0x31,
    ];
    assert_eq!(expected_bytes, bw.as_bytes());
}

#[test]
fn test_write_all_boards() {
    let mut bw = BinaryWriter::new();
    let result = write_all_boards(&mut bw, &[test_board(), test_board()]);
    assert!(result.is_ok());
    let expected_bytes = &[
        0x02, 0x0A, 0x54, 0x65, 0x73, 0x74, 0x20, 0x42, 0x6F, 0x61, 0x72, 0x64, 0x03, 0x0C,
        0x54, 0x65, 0x73, 0x74, 0x20, 0x42, 0x6F, 0x61, 0x72, 0x64, 0x20, 0x31, 0xFF, 0xFF,
        0xFF, 0x03, 0x06, 0x49, 0x74, 0x65, 0x6D, 0x20, 0x31, 0x06, 0x49, 0x74, 0x65, 0x6D,
        0x20, 0x32, 0x06, 0x49, 0x74, 0x65, 0x6D, 0x20, 0x33, 0x0C, 0x54, 0x65, 0x73, 0x74,
        0x20, 0x42, 0x6F, 0x61, 0x72, 0x64, 0x20, 0x32, 0x00, 0x00, 0x00, 0x02, 0x06, 0x49,
        0x74, 0x65, 0x6D, 0x20, 0x31, 0x06, 0x49, 0x74, 0x65, 0x6D, 0x20, 0x32, 0x0C, 0x54,
        0x65, 0x73, 0x74, 0x20, 0x42, 0x6F, 0x61, 0x72, 0x64, 0x20, 0x33, 0xAA, 0xAA, 0xAA,
        0x01, 0x06, 0x49, 0x74, 0x65, 0x6D, 0x20, 0x31, 0x0A, 0x54, 0x65, 0x73, 0x74, 0x20,
        0x42, 0x6F, 0x61, 0x72, 0x64, 0x03, 0x0C, 0x54, 0x65, 0x73, 0x74, 0x20, 0x42, 0x6F,
        0x61, 0x72, 0x64, 0x20, 0x31, 0xFF, 0xFF, 0xFF, 0x03, 0x06, 0x49, 0x74, 0x65, 0x6D,
        0x20, 0x31, 0x06, 0x49, 0x74, 0x65, 0x6D, 0x20, 0x32, 0x06, 0x49, 0x74, 0x65, 0x6D,
        0x20, 0x33, 0x0C, 0x54, 0x65, 0x73, 0x74, 0x20, 0x42, 0x6F, 0x61, 0x72, 0x64, 0x20,
        0x32, 0x00, 0x00, 0x00, 0x02, 0x06, 0x49, 0x74, 0x65, 0x6D, 0x20, 0x31, 0x06, 0x49,
        0x74, 0x65, 0x6D, 0x20, 0x32, 0x0C, 0x54, 0x65, 0x73, 0x74, 0x20, 0x42, 0x6F, 0x61,
        0x72, 0x64, 0x20, 0x33, 0xAA, 0xAA, 0xAA, 0x01, 0x06, 0x49, 0x74, 0x65, 0x6D, 0x20,
        0x31,
    ];
    assert_eq!(expected_bytes, bw.as_bytes());
}

#[test]
fn test_read_board() {
    let mut br = BinaryReader::new(&[
        0x0A, 0x54, 0x65, 0x73, 0x74, 0x20, 0x42, 0x6F, 0x61, 0x72, 0x64, 0x03, 0x0C, 0x54,
        0x65, 0x73, 0x74, 0x20, 0x42, 0x6F, 0x61, 0x72, 0x64, 0x20, 0x31, 0xFF, 0xFF, 0xFF,
        0x03, 0x06, 0x49, 0x74, 0x65, 0x6D, 0x20, 0x31, 0x06, 0x49, 0x74, 0x65, 0x6D, 0x20,
        0x32, 0x06, 0x49, 0x74, 0x65, 0x6D, 0x20, 0x33, 0x0C, 0x54, 0x65, 0x73, 0x74, 0x20,
        0x42, 0x6F, 0x61, 0x72, 0x64, 0x20, 0x32, 0x00, 0x00, 0x00, 0x02, 0x06, 0x49, 0x74,
        0x65, 0x6D, 0x20, 0x31, 0x06, 0x49, 0x74, 0x65, 0x6D, 0x20, 0x32, 0x0C, 0x54, 0x65,
        0x73, 0x74, 0x20, 0x42, 0x6F, 0x61, 0x72, 0x64, 0x20, 0x33, 0xAA, 0xAA, 0xAA, 0x01,
        0x06, 0x49, 0x74, 0x65, 0x6D, 0x20, 0x31,
    ]);
    let result = read_board(&mut br);
    assert!(result.is_ok());
    assert_eq!(test_board(), result.unwrap());
}

#[test]
fn test_read_all_boards() {
    let mut br = BinaryReader::new(&[
        0x02, 0x0A, 0x54, 0x65, 0x73, 0x74, 0x20, 0x42, 0x6F, 0x61, 0x72, 0x64, 0x03, 0x0C,
        0x54, 0x65, 0x73, 0x74, 0x20, 0x42, 0x6F, 0x61, 0x72, 0x64, 0x20, 0x31, 0xFF, 0xFF,
        0xFF, 0x03, 0x06, 0x49, 0x74, 0x65, 0x6D, 0x20, 0x31, 0x06, 0x49, 0x74, 0x65, 0x6D,
        0x20, 0x32, 0x06, 0x49, 0x74, 0x65, 0x6D, 0x20, 0x33, 0x0C, 0x54, 0x65, 0x73, 0x74,
        0x20, 0x42, 0x6F, 0x61, 0x72, 0x64, 0x20, 0x32, 0x00, 0x00, 0x00, 0x02, 0x06, 0x49,
        0x74, 0x65, 0x6D, 0x20, 0x31, 0x06, 0x49, 0x74, 0x65, 0x6D, 0x20, 0x32, 0x0C, 0x54,
        0x65, 0x73, 0x74, 0x20, 0x42, 0x6F, 0x61, 0x72, 0x64, 0x20, 0x33, 0xAA, 0xAA, 0xAA,
        0x01, 0x06, 0x49, 0x74, 0x65, 0x6D, 0x20, 0x31, 0x0A, 0x54, 0x65, 0x73, 0x74, 0x20,
        0x42, 0x6F, 0x61, 0x72, 0x64, 0x03, 0x0C, 0x54, 0x65, 0x73, 0x74, 0x20, 0x42, 0x6F,
        0x61, 0x72, 0x64, 0x20, 0x31, 0xFF, 0xFF, 0xFF, 0x03, 0x06, 0x49, 0x74, 0x65, 0x6D,
        0x20, 0x31, 0x06, 0x49, 0x74, 0x65, 0x6D, 0x20, 0x32, 0x06, 0x49, 0x74, 0x65, 0x6D,
        0x20, 0x33, 0x0C, 0x54, 0x65, 0x73, 0x74, 0x20, 0x42, 0x6F, 0x61, 0x72, 0x64, 0x20,
        0x32, 0x00, 0x00, 0x00, 0x02, 0x06, 0x49, 0x74, 0x65, 0x6D, 0x20, 0x31, 0x06, 0x49,
        0x74, 0x65, 0x6D, 0x20, 0x32, 0x0C, 0x54, 0x65, 0x73, 0x74, 0x20, 0x42, 0x6F, 0x61,
        0x72, 0x64, 0x20, 0x33, 0xAA, 0xAA, 0xAA, 0x01, 0x06, 0x49, 0x74, 0x65, 0x6D, 0x20,
        0x31,
    ]);
    let expected_boards = [test_board(), test_board()].to_vec();
    let result = read_all_boards(&mut br);
    assert!(result.is_ok());
    assert_eq!(expected_boards, result.unwrap());
}

#[test]
fn board_with_bad_text_is_a_text_error() {
    let mut br = BinaryReader::new(&[0x01, 0xFF, 0x00]);
    assert_eq!(KanbanErrorKind::TextError, read_board(&mut br).unwrap_err().kind);
}

#[test]
fn board_count_past_the_data_fails() {
    let mut br = BinaryReader::new(&[0x02, 0x00, 0x00]);
    assert_eq!(KanbanErrorKind::ProjectError, read_all_boards(&mut br).unwrap_err().kind);
}

#[test]
fn no_boards_is_one_zero_byte() {
    let mut bw = BinaryWriter::new();
    write_all_boards(&mut bw, &[]).unwrap();
    assert_eq!(&[0x00], bw.as_bytes());
    let mut br = BinaryReader::new(bw.as_bytes());
    assert!(read_all_boards(&mut br).unwrap().is_empty());
}

#[test]
fn boards_read_back_before_other_bytes() {
    let boards = vec![test_board(), Board { name: "Empty".to_string(), lists: Vec::new() }];
    let mut bw = BinaryWriter::new();
    write_all_boards(&mut bw, &boards).unwrap();
    let end = bw.as_bytes().len();
    bw.write_bytes(&[0xFF, 0x00]);
    let mut br = BinaryReader::new(bw.as_bytes());
    assert_eq!(boards, read_all_boards(&mut br).unwrap());
    assert_eq!(end, br.address);
}
