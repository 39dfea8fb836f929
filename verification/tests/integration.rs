use fci4096::mnemonic::IdiomMnemonic;
use fci4096::{
    from_entropy, from_phrase, generate, idiom_to_index, index_to_idiom, validate,
    ChineseIdiomList, IdiomMnemonicSize,
};

fn sample_list() -> ChineseIdiomList {
    let mut idioms = Vec::with_capacity(4096);
    for i in 0..4096u32 {
        let a = char::from_u32(0x4E00 + i / 64).unwrap();
        let b = char::from_u32(0x4E00 + i % 64).unwrap();
        idioms.push(format!("成{}{}语", a, b));
    }
    ChineseIdiomList::from_idioms(idioms, Vec::new()).unwrap()
}

#[test]
fn test_generate_recover_validate() {
    let list = sample_list();
    let idiom_mnemonic = generate(IdiomMnemonicSize::Idioms12).unwrap();
    let phrase = idiom_mnemonic.phrase(&list);

    assert!(validate(&list, &phrase));

    let recovered = from_phrase(&list, &phrase).unwrap();
    assert_eq!(idiom_mnemonic, recovered);

    let entropy = idiom_mnemonic.to_entropy().unwrap();
    let from_entropy_mnemonic = from_entropy(&entropy).unwrap();
    assert_eq!(idiom_mnemonic, from_entropy_mnemonic);
}

#[test]
fn test_all_idiom_mnemonic_sizes() {
    let list = sample_list();
    for size in [
        IdiomMnemonicSize::Idioms12,
        IdiomMnemonicSize::Idioms15,
        IdiomMnemonicSize::Idioms18,
        IdiomMnemonicSize::Idioms21,
        IdiomMnemonicSize::Idioms24,
    ]
    .iter()
    {
        let idiom_mnemonic = generate(*size).unwrap();
        assert_eq!(idiom_mnemonic.idioms(&list).len(), size.idiom_count());

        let phrase = idiom_mnemonic.phrase(&list);
        assert!(validate(&list, &phrase));

        let recovered = from_phrase(&list, &phrase).unwrap();
        assert_eq!(idiom_mnemonic, recovered);

        let entropy = idiom_mnemonic.to_entropy().unwrap();
        assert_eq!(entropy.len() * 8, size.entropy_bits());
    }
}

#[test]
fn integration_test_seed_generation() {
    let list = sample_list();
    let idiom_mnemonic = generate(IdiomMnemonicSize::Idioms12).unwrap();
    let seed = idiom_mnemonic.to_seed(&list, "");
    assert_eq!(seed.len(), 64);

    let seed_with_passphrase = idiom_mnemonic.to_seed(&list, "test_passphrase");
    assert_ne!(seed, seed_with_passphrase);
}

#[test]
fn test_idiom_index_conversion() {
    let list = sample_list();
    let first_idiom = index_to_idiom(&list, 0).unwrap();
    let idx = idiom_to_index(&list, first_idiom).unwrap();
    let recovered_idiom = index_to_idiom(&list, idx).unwrap();
    assert_eq!(first_idiom, recovered_idiom);
}

#[test]
fn test_invalid_phrase() {
    let list = sample_list();
    assert!(!validate(&list, "这不是一个有效的助记词"));
    assert!(!validate(&list, "不存在的成语 另一个不存在的成语"));
}

#[test]
fn test_entropy_roundtrip() {
    let entropy = [
        0x12u8, 0x34, 0x56, 0x78, 0x90, 0xab, 0xcd, 0xef, 0x12, 0x34, 0x56, 0x78, 0x90, 0xab, 0xcd,
        0xef,
    ];
    let idiom_mnemonic = from_entropy(&entropy).unwrap();
    let recovered_entropy = idiom_mnemonic.to_entropy().unwrap();
    assert_eq!(entropy, recovered_entropy.as_slice());
}

#[test]
fn test_empty_entropy() {
    assert!(from_entropy(&[]).is_err());
}

#[test]
fn integration_test_invalid_entropy_length() {
    let invalid_entropy = [0x00u8; 17];
    assert!(from_entropy(&invalid_entropy).is_err());
}

#[test]
fn test_checksum_failure() {
    let list = sample_list();
    let idiom_mnemonic = generate(IdiomMnemonicSize::Idioms12).unwrap();
    let mut idioms: Vec<&str> = idiom_mnemonic.idioms(&list);
    if let Some(alt_idiom) = index_to_idiom(&list, 1) {
        idioms[0] = alt_idiom;
    }
    let modified_phrase = idioms.join(" ");
    assert!(!validate(&list, &modified_phrase));
}

#[test]
fn test_fullwidth_space_separator() {
    let list = sample_list();
    let entropy = [0x00u8; 16];
    let mnemonic = from_entropy(&entropy).unwrap();
    let phrase = mnemonic.phrase(&list);
    let fullwidth = phrase.replace(' ', "\u{3000}");
    let recovered = from_phrase(&list, &fullwidth).unwrap();
    assert_eq!(mnemonic, recovered);
}

#[test]
fn test_tab_separator() {
    let list = sample_list();
    let entropy = [0x00u8; 16];
    let mnemonic = from_entropy(&entropy).unwrap();
    let phrase = mnemonic.phrase(&list);
    let tabbed = phrase.replace(' ', "\t");
    let recovered = from_phrase(&list, &tabbed).unwrap();
    assert_eq!(mnemonic, recovered);
}

#[test]
fn test_mixed_separator() {
    let list = sample_list();
    let entropy = [0x00u8; 16];
    let mnemonic = from_entropy(&entropy).unwrap();
    let phrase = mnemonic.phrase(&list);
    // Mix half-width spaces, full-width spaces and tabs
    let parts: Vec<&str> = phrase.split(' ').collect();
    let mixed = format!(
        "{}  {}\u{3000}{}\t{}  {}\u{3000}{}\t{}  {}\u{3000}{}\t{}  {}\u{3000}{}",
        parts[0],
        parts[1],
        parts[2],
        parts[3],
        parts[4],
        parts[5],
        parts[6],
        parts[7],
        parts[8],
        parts[9],
        parts[10],
        parts[11]
    );
    let recovered = from_phrase(&list, &mixed).unwrap();
    assert_eq!(mnemonic, recovered);
}

#[test]
fn test_boundary_index_zero() {
    let list = sample_list();
    assert!(index_to_idiom(&list, 0).is_some());
    let idiom = index_to_idiom(&list, 0).unwrap();
    assert_eq!(idiom_to_index(&list, idiom), Some(0));
}

#[test]
fn test_boundary_index_max() {
    let list = sample_list();
    assert!(index_to_idiom(&list, 4095).is_some());
    let idiom = index_to_idiom(&list, 4095).unwrap();
    assert_eq!(idiom_to_index(&list, idiom), Some(4095));
}

#[test]
fn test_index_out_of_bounds() {
    let list = sample_list();
    assert!(index_to_idiom(&list, 4096).is_none());
    assert!(index_to_idiom(&list, usize::MAX).is_none());
}

#[test]
fn test_idiom_to_index_invalid() {
    let list = sample_list();
    assert_eq!(idiom_to_index(&list, ""), None);
    assert_eq!(idiom_to_index(&list, "三字"), None);
    assert_eq!(idiom_to_index(&list, "五个字的成语"), None);
    assert_eq!(idiom_to_index(&list, "abcd"), None);
}

#[test]
fn test_validate_edge_cases() {
    let list = sample_list();
    assert!(!validate(&list, ""));
    assert!(!validate(&list, "   "));
    assert!(!validate(&list, "单个成语"));
    assert!(!validate(&list, "哀而不伤")); // only one idiom
}

#[test]
fn test_seed_iterations_configurable() {
    let list = sample_list();
    let entropy = [0x00u8; 16];
    let mnemonic = IdiomMnemonic::from_entropy(&entropy).unwrap();

    let seed_default = mnemonic.to_seed(&list, "");
    let seed_custom = mnemonic.to_seed_with_iterations(&list, "", 2048);

    assert_ne!(seed_default, seed_custom);
}

#[test]
fn test_seed_deterministic() {
    let list = sample_list();
    let entropy = [0xabu8; 16];
    let mnemonic1 = from_entropy(&entropy).unwrap();
    let mnemonic2 = from_entropy(&entropy).unwrap();
    assert_eq!(mnemonic1.to_seed(&list, "test"), mnemonic2.to_seed(&list, "test"));
}

#[test]
fn test_phrase_is_deterministic() {
    let list = sample_list();
    let entropy = [0x42u8; 16];
    let mnemonic1 = from_entropy(&entropy).unwrap();
    let mnemonic2 = from_entropy(&entropy).unwrap();
    assert_eq!(mnemonic1.phrase(&list), mnemonic2.phrase(&list));
}

// ---- further cases ----

#[test]
fn separators_at_the_ends_are_ignored() {
    let list = sample_list();
    let mnemonic = from_entropy(&[0x07u8; 28]).unwrap();
    let phrase = mnemonic.phrase(&list);
    let padded = format!("\t \u{3000}{}  \t", phrase);
    assert_eq!(from_phrase(&list, &padded).unwrap(), mnemonic);
    assert!(validate(&list, &padded));
}

#[test]
fn phrase_of_a_parsed_phrase_is_canonical() {
    let list = sample_list();
    let mnemonic = from_entropy(&[0x99u8; 32]).unwrap();
    let phrase = mnemonic.phrase(&list);
    let tabbed = phrase.replace(' ', "\t\t");
    assert_eq!(from_phrase(&list, &tabbed).unwrap().phrase(&list), phrase);
}

#[test]
fn top_level_pinyin_lookup() {
    let mut idioms = Vec::with_capacity(4096);
    let mut pinyin = Vec::with_capacity(4096);
    for i in 0..4096u32 {
        let a = char::from_u32(0x4E00 + i / 64).unwrap();
        let b = char::from_u32(0x4E00 + i % 64).unwrap();
        idioms.push(format!("成{}{}语", a, b));
        pinyin.push(format!("cheng2 {} yu3", i));
    }
    let list = ChineseIdiomList::from_idioms(idioms, pinyin).unwrap();
    assert_eq!(fci4096::get_pinyin(&list, 12), Some("cheng2 12 yu3"));
    assert_eq!(fci4096::get_pinyin(&list, 4096), None);
}
