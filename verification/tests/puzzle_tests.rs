use linematch::circular_buffer::{CircularBuffer, Error as BufferError};
use linematch::fizzy::{fizz_buzz, Fizzy, MatchRule, Matcher};
use linematch::ocr_numbers::{convert, Error as OcrError};
use linematch::queen_attack::{ChessPosition, Queen};
use linematch::sum_of_multiples::sum_of_multiples;

#[test]
fn buffer_reads_in_write_order() {
    let mut b: CircularBuffer<u32> = CircularBuffer::new(2);
    assert_eq!(b.write(1), Ok(()));
    assert_eq!(b.write(2), Ok(()));
    assert_eq!(b.read(), Ok(1));
    assert_eq!(b.read(), Ok(2));
}

#[test]
fn buffer_rejects_write_when_full() {
    let mut b: CircularBuffer<u32> = CircularBuffer::new(1);
    assert_eq!(b.write(1), Ok(()));
    assert_eq!(b.write(2), Err(BufferError::FullBuffer));
}

#[test]
fn buffer_rejects_read_when_empty() {
    let mut b: CircularBuffer<u32> = CircularBuffer::new(1);
    assert_eq!(b.read(), Err(BufferError::EmptyBuffer));
}

#[test]
fn buffer_clear_empties() {
    let mut b: CircularBuffer<u32> = CircularBuffer::new(2);
    assert_eq!(b.write(7), Ok(()));
    b.clear();
    assert_eq!(b.read(), Err(BufferError::EmptyBuffer));
}

#[test]
fn buffer_overwrite_evicts_oldest() {
    let mut b: CircularBuffer<u32> = CircularBuffer::new(2);
    assert_eq!(b.write(1), Ok(()));
    assert_eq!(b.write(2), Ok(()));
    b.overwrite(3);
    assert_eq!(b.read(), Ok(2));
    assert_eq!(b.read(), Ok(3));
}

#[test]
fn buffer_overwrite_acts_as_write_when_not_full() {
    let mut b: CircularBuffer<u32> = CircularBuffer::new(2);
    b.overwrite(1);
    assert_eq!(b.read(), Ok(1));
}

#[test]
fn standard_fizz_buzz() {
    let input: Vec<u64> = (1..=15).collect();
    let got = fizz_buzz().apply(&input);
    let expected = vec![
        "1", "2", "fizz", "4", "buzz", "fizz", "7", "8", "fizz", "buzz", "11", "fizz", "13", "14",
        "fizzbuzz",
    ];
    assert_eq!(got, expected.into_iter().map(String::from).collect::<Vec<_>>());
}

#[test]
fn fizzy_with_custom_matcher() {
    let input: Vec<u64> = vec![6, 7, 14, 21, 35];
    let got = fizz_buzz().add_matcher(Matcher::new(MatchRule::DivisibleBy(7), "bam")).apply(&input);
    let expected = vec!["fizz", "bam", "bam", "fizzbam", "buzzbam"];
    assert_eq!(got, expected.into_iter().map(String::from).collect::<Vec<_>>());
}

#[test]
fn divisibility_check() {
    assert!(Fizzy::is_divisible_by(&12, 3));
    assert!(!Fizzy::is_divisible_by(&13, 3));
}

#[test]
fn position_off_the_board_is_rejected() {
    assert!(ChessPosition::new(8, 0).is_none());
    assert!(ChessPosition::new(-1, 3).is_none());
    assert!(ChessPosition::new(0, 7).is_some());
}

#[test]
fn queens_on_a_shared_file_attack() {
    let a = Queen::new(ChessPosition::new(2, 4).unwrap());
    let b = Queen::new(ChessPosition::new(6, 4).unwrap());
    assert!(a.can_attack(&b));
}

#[test]
fn queens_on_a_shared_diagonal_attack() {
    let a = Queen::new(ChessPosition::new(2, 2).unwrap());
    let b = Queen::new(ChessPosition::new(5, 5).unwrap());
    assert!(a.can_attack(&b));
    let c = Queen::new(ChessPosition::new(0, 6).unwrap());
    let d = Queen::new(ChessPosition::new(1, 5).unwrap());
    assert!(c.can_attack(&d));
}

#[test]
fn queens_apart_do_not_attack() {
    let a = Queen::new(ChessPosition::new(2, 4).unwrap());
    let b = Queen::new(ChessPosition::new(6, 5).unwrap());
    assert!(!a.can_attack(&b));
}

#[test]
fn multiples_of_three_and_five_below_twenty() {
    assert_eq!(sum_of_multiples(20, &[3, 5]), 78);
}

#[test]
fn multiples_below_ten() {
    assert_eq!(sum_of_multiples(10, &[3, 5]), 23);
}

#[test]
fn shared_multiples_count_once() {
    assert_eq!(sum_of_multiples(16, &[3, 5]), 60);
}

#[test]
fn zero_factors_are_skipped() {
    assert_eq!(sum_of_multiples(10, &[0, 3]), 18);
}

#[test]
fn no_factors_sum_to_zero() {
    assert_eq!(sum_of_multiples(100, &[]), 0);
}

#[test]
fn ocr_reads_zero() {
    let input = " _ \n| |\n|_|\n   ";
    assert_eq!(convert(input), Ok("0".to_string()));
}

#[test]
fn ocr_reads_two_digits() {
    let input = "    _ \n  || |\n  ||_|\n      ";
    assert_eq!(convert(input), Ok("10".to_string()));
}

#[test]
fn ocr_reads_garbage_as_question_mark() {
    let input = "   \n| |\n| |\n   ";
    assert_eq!(convert(input), Ok("?".to_string()));
}

#[test]
fn ocr_joins_row_groups_with_commas() {
    let input = "   \n  |\n  |\n   \n _ \n _|\n|_ \n   ";
    assert_eq!(convert(input), Ok("1,2".to_string()));
}

#[test]
fn ocr_rejects_bad_row_count() {
    let input = " _ \n| |\n   ";
    assert_eq!(convert(input), Err(OcrError::InvalidRowCount(3)));
}

#[test]
fn ocr_rejects_bad_column_count() {
    let input = "    \n   |\n   |\n    ";
    assert_eq!(convert(input), Err(OcrError::InvalidColumnCount(4)));
}
