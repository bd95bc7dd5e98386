//! A small collection of verified utilities: a flag-driven line-matching
//! engine with its splitting and decimal-rendering helpers, a bounded
//! first-in-first-out buffer, a fizz-buzz generaliser, seven-segment digit
//! recognition, chessboard queen attacks, summing distinct multiples, and a
//! tournament tally.

pub mod circular_buffer;
pub mod decimal;
pub mod fizzy;
pub mod grep;
pub mod ocr_numbers;
pub mod queen_attack;
pub mod splitter;
pub mod sum_of_multiples;
pub mod tournament;
