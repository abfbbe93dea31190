use byte_reader::{ByteReader, ReadError};

#[test]
fn new_reader_starts_at_zero() {
    let bytes = [1u8, 2, 3];
    let reader = ByteReader::new(&bytes);
    assert_eq!(reader.cursor(), 0);
    assert_eq!(reader.len(), 3);
}

#[test]
fn len_is_the_whole_buffer_not_the_rest() {
    let bytes = [1u8, 2, 3, 4, 5];
    let mut reader = ByteReader::new(&bytes);
    assert_eq!(reader.read_u32_be(), Ok(0x0102_0304));
    assert_eq!(reader.len(), 5);
}

#[test]
fn read_block_past_the_end_fails() {
    let bytes = [9u8, 8, 7, 6];
    let mut reader = ByteReader::new(&bytes);
    assert_eq!(
        reader.read_block(5),
        Err(ReadError::OutOfBounds { position: 0, length: 5, capacity: 4 })
    );
    assert_eq!(reader.cursor(), 0);
}

#[test]
fn read_block_returns_the_bytes_and_moves() {
    let bytes = [9u8, 8, 7, 6];
    let mut reader = ByteReader::new(&bytes);
    assert_eq!(reader.read_block(3), Ok(&bytes[0..3]));
    assert_eq!(reader.cursor(), 3);
    assert_eq!(reader.read_block(1), Ok(&bytes[3..4]));
    assert_eq!(reader.cursor(), 4);
    assert_eq!(reader.read_block(0), Ok(&bytes[4..4]));
    assert_eq!(reader.cursor(), 4);
    assert_eq!(
        reader.read_block(1),
        Err(ReadError::OutOfBounds { position: 4, length: 1, capacity: 4 })
    );
    assert_eq!(reader.cursor(), 4);
}

#[test]
fn read_block_outlives_the_reader() {
    let bytes = [1u8, 2, 3, 4];
    let block = {
        let mut reader = ByteReader::new(&bytes);
        reader.read_block(2).unwrap()
    };
    assert_eq!(block, &[1u8, 2][..]);
    let peek = {
        let reader = ByteReader::new(&bytes);
        reader.get_block_at(2, 2).unwrap()
    };
    assert_eq!(peek, &[3u8, 4][..]);
}

#[test]
fn read_block_with_a_huge_length_fails_without_a_panic() {
    let bytes = [1u8, 2, 3, 4];
    let mut reader = ByteReader::new(&bytes);
    reader.advance(2);
    assert_eq!(
        reader.read_block(usize::MAX),
        Err(ReadError::OutOfBounds { position: 2, length: usize::MAX, capacity: 4 })
    );
    assert_eq!(reader.cursor(), 2);
}

#[test]
fn get_block_at_leaves_the_cursor() {
    let bytes = [10u8, 20, 30, 40, 50];
    let mut reader = ByteReader::new(&bytes);
    reader.advance(2);
    assert_eq!(reader.get_block_at(1, 3), Ok(&bytes[1..4]));
    assert_eq!(reader.cursor(), 2);
    assert_eq!(
        reader.get_block_at(3, 3),
        Err(ReadError::OutOfBounds { position: 3, length: 3, capacity: 5 })
    );
    assert_eq!(reader.cursor(), 2);
    assert_eq!(reader.read_u8(), Ok(30));
}

#[test]
fn get_block_at_the_edges() {
    let bytes = [10u8, 20, 30];
    let reader = ByteReader::new(&bytes);
    assert_eq!(reader.get_block_at(0, 3), Ok(&bytes[..]));
    assert_eq!(reader.get_block_at(3, 0), Ok(&bytes[3..3]));
    assert_eq!(reader.get_block_at(0, 0), Ok(&bytes[0..0]));
    assert_eq!(
        reader.get_block_at(4, 0),
        Err(ReadError::OutOfBounds { position: 4, length: 0, capacity: 3 })
    );
    assert_eq!(
        reader.get_block_at(0, 4),
        Err(ReadError::OutOfBounds { position: 0, length: 4, capacity: 3 })
    );
    assert_eq!(
        reader.get_block_at(usize::MAX, 2),
        Err(ReadError::OutOfBounds { position: usize::MAX, length: 2, capacity: 3 })
    );
    assert_eq!(
        reader.get_block_at(2, usize::MAX),
        Err(ReadError::OutOfBounds { position: 2, length: usize::MAX, capacity: 3 })
    );
}

#[test]
fn get_block_at_works_with_the_cursor_past_the_end() {
    let bytes = [10u8, 20, 30];
    let mut reader = ByteReader::new(&bytes);
    reader.advance(100);
    assert_eq!(reader.get_block_at(1, 2), Ok(&bytes[1..3]));
    assert_eq!(reader.cursor(), 100);
}

#[test]
fn advance_moves_without_a_check() {
    let bytes = [1u8, 2];
    let mut reader = ByteReader::new(&bytes);
    reader.advance(0);
    assert_eq!(reader.cursor(), 0);
    reader.advance(1);
    assert_eq!(reader.cursor(), 1);
    reader.advance(9);
    assert_eq!(reader.cursor(), 10);
    assert_eq!(
        reader.read_u8(),
        Err(ReadError::OutOfBounds { position: 10, length: 1, capacity: 2 })
    );
}

#[test]
fn align_rounds_up_to_a_multiple() {
    let bytes = [0u8; 16];
    let mut reader = ByteReader::new(&bytes);
    reader.advance(6);
    reader.align(4);
    assert_eq!(reader.cursor(), 8);
    reader.align(4);
    assert_eq!(reader.cursor(), 8);
}

#[test]
fn align_twice_is_align_once() {
    let bytes = [0u8; 4];
    for start in 0..40usize {
        for n in 1..12usize {
            let mut once = ByteReader::new(&bytes);
            once.advance(start);
            once.align(n);
            let mut twice = ByteReader::new(&bytes);
            twice.advance(start);
            twice.align(n);
            twice.align(n);
            assert_eq!(once.cursor(), twice.cursor());
            assert_eq!(once.cursor() % n, 0);
            assert!(once.cursor() >= start && once.cursor() < start + n);
        }
    }
}

#[test]
fn align_exact_values() {
    let bytes = [0u8; 4];
    let mut reader = ByteReader::new(&bytes);
    reader.align(8);
    assert_eq!(reader.cursor(), 0);
    reader.advance(1);
    reader.align(8);
    assert_eq!(reader.cursor(), 8);
    reader.advance(1);
    reader.align(1);
    assert_eq!(reader.cursor(), 9);
    reader.align(5);
    assert_eq!(reader.cursor(), 10);
    reader.align(16);
    assert_eq!(reader.cursor(), 16);
    reader.align(7);
    assert_eq!(reader.cursor(), 21);
}

#[test]
fn align_may_leave_the_buffer() {
    let bytes = [1u8, 2, 3];
    let mut reader = ByteReader::new(&bytes);
    reader.advance(1);
    reader.align(8);
    assert_eq!(reader.cursor(), 8);
    assert_eq!(
        reader.read_u8(),
        Err(ReadError::OutOfBounds { position: 8, length: 1, capacity: 3 })
    );
}

#[test]
fn rewind_moves_back() {
    let bytes = [1u8, 2, 3, 4, 5];
    let mut reader = ByteReader::new(&bytes);
    reader.advance(4);
    assert_eq!(reader.rewind(3), Ok(()));
    assert_eq!(reader.cursor(), 1);
    assert_eq!(reader.rewind(0), Ok(()));
    assert_eq!(reader.cursor(), 1);
}

#[test]
fn rewind_by_the_cursor_or_more_fails() {
    let bytes = [1u8, 2, 3, 4, 5];
    let mut reader = ByteReader::new(&bytes);
    assert_eq!(reader.rewind(0), Err(ReadError::InvalidRewind { amount: 0, cursor: 0 }));
    assert_eq!(reader.rewind(1), Err(ReadError::InvalidRewind { amount: 1, cursor: 0 }));
    reader.advance(3);
    assert_eq!(reader.rewind(3), Err(ReadError::InvalidRewind { amount: 3, cursor: 3 }));
    assert_eq!(reader.cursor(), 3);
    assert_eq!(reader.rewind(4), Err(ReadError::InvalidRewind { amount: 4, cursor: 3 }));
    assert_eq!(reader.cursor(), 3);
    assert_eq!(
        reader.rewind(usize::MAX),
        Err(ReadError::InvalidRewind { amount: usize::MAX, cursor: 3 })
    );
    assert_eq!(reader.cursor(), 3);
    assert_eq!(reader.rewind(2), Ok(()));
    assert_eq!(reader.cursor(), 1);
}

#[test]
fn rewind_then_read_again_gives_the_same() {
    let bytes = [0x11u8, 0x22, 0x33, 0x44, 0x55, 0x66, 0x77, 0x88, 0x99];
    let mut reader = ByteReader::new(&bytes);
    reader.advance(1);

    let first = reader.read_u16_be();
    assert_eq!(first, Ok(0x2233));
    assert_eq!(reader.rewind(2), Ok(()));
    assert_eq!(reader.read_u16_be(), first);

    assert_eq!(reader.rewind(2), Ok(()));
    let first = reader.read_u64_le();
    assert_eq!(first, Ok(0x9988_7766_5544_3322));
    assert_eq!(reader.rewind(8), Ok(()));
    assert_eq!(reader.read_u64_le(), first);

    assert_eq!(reader.rewind(8), Ok(()));
    let first = reader.read_block(5);
    assert_eq!(first, Ok(&bytes[1..6]));
    assert_eq!(reader.rewind(5), Ok(()));
    assert_eq!(reader.read_block(5), first);
    assert_eq!(reader.cursor(), 6);
}

#[test]
fn rewind_then_read_c_str_again_gives_the_same() {
    let bytes = [0x01u8, b'k', b'e', b'y', 0x00, 0x02];
    let mut reader = ByteReader::new(&bytes);
    reader.advance(1);
    let first = reader.read_c_str();
    assert_eq!(first, Ok(String::from("key")));
    assert_eq!(reader.cursor(), 5);
    assert_eq!(reader.rewind(4), Ok(()));
    assert_eq!(reader.cursor(), 1);
    assert_eq!(reader.read_c_str(), first);
    assert_eq!(reader.cursor(), 5);
}

#[test]
fn rewind_over_a_read_from_the_start_is_refused() {
    let bytes = [0x11u8, 0x22];
    let mut reader = ByteReader::new(&bytes);
    assert_eq!(reader.read_u16_le(), Ok(0x2211));
    assert_eq!(reader.rewind(2), Err(ReadError::InvalidRewind { amount: 2, cursor: 2 }));
    reader.reset();
    assert_eq!(reader.read_u16_le(), Ok(0x2211));
}

#[test]
fn reset_reads_like_a_new_reader() {
    let bytes = [b'a', b'b', 0x00, 0x10, 0x20, 0x30, 0x40, 0x50, 0x60, 0x70, 0x80];
    let mut used = ByteReader::new(&bytes);
    assert_eq!(used.read_c_str(), Ok(String::from("ab")));
    assert_eq!(used.read_u32_be(), Ok(0x1020_3040));
    used.advance(100);
    used.reset();
    assert_eq!(used.cursor(), 0);

    let mut new = ByteReader::new(&bytes);
    assert_eq!(used.read_u8(), new.read_u8());
    assert_eq!(used.read_u16_be(), new.read_u16_be());
    assert_eq!(used.read_block(2), new.read_block(2));
    assert_eq!(used.read_u64_le(), new.read_u64_le());
    assert_eq!(used.read_u32_le(), new.read_u32_le());
    assert_eq!(used.cursor(), new.cursor());

    used.reset();
    let mut new = ByteReader::new(&bytes);
    assert_eq!(used.read_c_str(), new.read_c_str());
    assert_eq!(used.read_u64_be(), new.read_u64_be());
    assert_eq!(used.cursor(), new.cursor());
    assert_eq!(used.cursor(), 11);
}

#[test]
fn reset_from_past_the_end() {
    let bytes = [7u8];
    let mut reader = ByteReader::new(&bytes);
    reader.advance(usize::MAX);
    reader.reset();
    assert_eq!(reader.cursor(), 0);
    assert_eq!(reader.read_u8(), Ok(7));
}
