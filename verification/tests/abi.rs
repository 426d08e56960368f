use process_core::abi::ProcInitInfo;

fn word_at(block: &[u8], i: usize) -> u64 {
    let mut b = [0u8; 8];
    b.copy_from_slice(&block[i * 8..i * 8 + 8]);
    u64::from_le_bytes(b)
}

#[test]
fn block_layout_one_arg_one_aux() {
    let info = ProcInitInfo {
        args: vec![b"a".to_vec()],
        envs: Vec::new(),
        auxv: vec![(4, 7)],
    };
    let top: usize = 1000;
    let (block, sp) = info.build_block(top).unwrap();
    // 8 words plus the string area "a\0" padded to 8 bytes
    assert_eq!(block.len(), 8 * 8 + 8);
    assert_eq!(sp, top - block.len());
    assert_eq!(word_at(&block, 0), 1); // argc
    assert_eq!(word_at(&block, 1), (top - 2) as u64); // argv[0] -> "a"
    assert_eq!(word_at(&block, 2), 0); // argv terminator
    assert_eq!(word_at(&block, 3), 0); // envp terminator
    assert_eq!(word_at(&block, 4), 4); // aux key
    assert_eq!(word_at(&block, 5), 7); // aux value
    assert_eq!(word_at(&block, 6), 0); // aux terminator pair
    assert_eq!(word_at(&block, 7), 0);
    assert_eq!(&block[64..70], &[0, 0, 0, 0, 0, 0]); // padding
    assert_eq!(&block[70..72], b"a\0");
}

#[test]
fn block_of_nothing_is_the_five_terminator_words() {
    let info = ProcInitInfo { args: Vec::new(), envs: Vec::new(), auxv: Vec::new() };
    let (block, sp) = info.build_block(100).unwrap();
    assert_eq!(block.len(), 40);
    assert_eq!(sp, 60);
    assert_eq!(word_at(&block, 0), 0); // argc
    assert!(block.iter().all(|&b| b == 0));
}

#[test]
fn env_strings_follow_the_arguments() {
    let info = ProcInitInfo {
        args: vec![b"hi".to_vec()],
        envs: vec![b"K=V".to_vec()],
        auxv: Vec::new(),
    };
    let top: usize = 4096;
    let (block, sp) = info.build_block(top).unwrap();
    // strings: "hi\0K=V\0" = 7 bytes, padded to 8; words: 5 + 1 + 1 = 7
    assert_eq!(block.len(), 7 * 8 + 8);
    assert_eq!(sp, top - block.len());
    assert_eq!(word_at(&block, 0), 1); // argc
    assert_eq!(word_at(&block, 1), (top - 7) as u64); // argv[0] -> "hi"
    assert_eq!(word_at(&block, 2), 0);
    assert_eq!(word_at(&block, 3), (top - 4) as u64); // envp[0] -> "K=V"
    assert_eq!(word_at(&block, 4), 0);
    let n = block.len();
    assert_eq!(&block[n - 7..], b"hi\0K=V\0");
}

#[test]
fn block_that_cannot_fit_is_refused() {
    let info = ProcInitInfo { args: Vec::new(), envs: Vec::new(), auxv: Vec::new() };
    assert!(info.build_block(16).is_err());
    assert!(info.build_block(40).is_ok());
}
