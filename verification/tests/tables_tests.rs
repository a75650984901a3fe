use nuttchess::attacks;
use nuttchess::board::{BoardState, MoveRep, PieceType, Promotion};
use nuttchess::eval::{delta_ps_score, eval, get_piece_value, material_value, piece_square_score};
use nuttchess::generate::{
    generate, generate_attacking_moves, generate_blocking_moves, generate_target_blocking,
    move_king_to_safety, pop_lsb,
};
use nuttchess::search::perft_search;
use nuttchess::tables::Tables;
use nuttchess::tt::ZobKeys;

#[test]
fn test_calculate_relevent_rook_occupancy_1() {
    let test_occupancy1 = 0x4080000000008080;
    let result1 = Tables::calculate_relevent_rook_occupancy(63, test_occupancy1);
    assert_eq!(result1, 0x4080000000000000);
}

#[test]
fn test_calculate_relevent_rook_occupancy_2() {
    let test_occupancy2 = 0x800040;
    let result2 = Tables::calculate_relevent_rook_occupancy(7, test_occupancy2);
    assert_eq!(result2, 0x808040);
}

#[test]
fn test_calculate_relevent_rook_occupancy_3() {
    let test_occupancy3 = 8388735;
    let result3 = Tables::calculate_relevent_rook_occupancy(7, test_occupancy3);
    assert_eq!(result3, 0x808040);
}

#[test]
fn test_calculate_relevent_rook_occupancy_4() {
    let test_occupancy = 0xffff;
    let result = Tables::calculate_relevent_rook_occupancy(7, test_occupancy);
    assert_eq!(result, 0x8040);
}

#[test]
fn test_calculate_relevent_bishop_occupancy() {
    let test1 = 0x82000000084400;
    let expected1 = 0x82442800284000;
    let result1 = Tables::calculate_relevent_bishop_occupancy(28, test1);
    println!("Input: {}", test1);
    println!("Expected: {}", expected1);
    println!("Actual: {}", result1);
    assert_eq!(result1, expected1);
}

#[test]
fn test_calculate_relevent_bishop_occupancy_2() {
    let test2 = 0x40010000000;
    let expected2 = 0x2040000000000;
    let result2 = Tables::calculate_relevent_bishop_occupancy(56, test2);
    println!("Input: {}", test2);
    println!("Expected: {}", expected2);
    println!("Actual: {}", result2);
    assert_eq!(result2, expected2);
}

#[test]
fn test_calculate_relevent_bishop_occupancy_3() {
    let test3 = 0x8000001000080;
    let expected3 = 0x10a000a11204080;
    let result3 = Tables::calculate_relevent_bishop_occupancy(42, test3);
    println!("Input: {}", test3);
    println!("Expected: {}", expected3);
    println!("Actual: {}", result3);
    assert_eq!(result3, expected3);
}

#[test]
fn test_calculate_relevent_bishop_occupancy_4() {
    let test = 0x100000000000000;
    let expected = 0x102040810a000a0;
    let result = Tables::calculate_relevent_bishop_occupancy(14, test);
    assert_eq!(result, expected);
}

