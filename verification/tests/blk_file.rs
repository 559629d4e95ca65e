use bitcrust_core::blk_file::{read_block, tag_action, BlockRead, TagAction, MAGIC};

fn block(bytes: &[u8]) -> Vec<u8> {
    let mut out = vec![0xF9, 0xBE, 0xB4, 0xD9];
    out.extend_from_slice(&(bytes.len() as u32).to_le_bytes());
    out.extend_from_slice(bytes);
    out
}

#[test]
fn tags_are_told_apart() {
    assert_eq!(MAGIC, 0xD9B4BEF9);
    assert_eq!(tag_action(0), TagAction::Skip);
    assert_eq!(tag_action(MAGIC), TagAction::ReadBlock);
    assert_eq!(tag_action(1), TagAction::Fail);
    assert_eq!(tag_action(0xD9B4BEF8), TagAction::Fail);
}

#[test]
fn blocks_are_read_one_after_the_other() {
    let mut file = block(&[1, 2, 3]);
    file.extend_from_slice(&block(&[]));
    file.extend_from_slice(&block(&[4]));
    assert_eq!(read_block(&file, 0), BlockRead::Block(&[1, 2, 3], 11));
    assert_eq!(read_block(&file, 11), BlockRead::Block(&[], 19));
    assert_eq!(read_block(&file, 19), BlockRead::Block(&[4], 28));
    assert_eq!(read_block(&file, 28), BlockRead::End);
}

#[test]
fn zero_padding_is_stepped_over() {
    let mut file = vec![0u8; 8];
    file.extend_from_slice(&block(&[5, 6]));
    assert_eq!(read_block(&file, 0), BlockRead::Block(&[5, 6], 18));
    assert_eq!(read_block(&file, 4), BlockRead::Block(&[5, 6], 18));
    assert_eq!(read_block(&[0, 0, 0, 0, 0, 0, 0, 0], 0), BlockRead::End);
}

#[test]
fn a_short_tag_ends_the_file() {
    assert_eq!(read_block(&[], 0), BlockRead::End);
    assert_eq!(read_block(&[0xF9, 0xBE, 0xB4], 0), BlockRead::End);
    assert_eq!(read_block(&[0, 0, 0, 0, 0xF9], 0), BlockRead::End);
}

#[test]
fn an_unknown_tag_is_an_error() {
    assert_eq!(read_block(&[1, 0, 0, 0, 0, 0, 0, 0], 0), BlockRead::BadMagic);
    assert_eq!(read_block(&[0, 0, 0, 0, 0xFA, 0xBF, 0xB5, 0xDA], 0), BlockRead::BadMagic);
}

#[test]
fn a_cut_length_or_block_is_an_error() {
    assert_eq!(read_block(&[0xF9, 0xBE, 0xB4, 0xD9, 1, 0], 0), BlockRead::Truncated);
    assert_eq!(read_block(&[0xF9, 0xBE, 0xB4, 0xD9, 2, 0, 0, 0, 7], 0), BlockRead::Truncated);
}
