use fci4096::mnemonic::{IdiomMnemonic, IdiomMnemonicSize};
use fci4096::phrase::split_words;
use fci4096::{ChineseIdiomList, Error};

fn sample_list() -> ChineseIdiomList {
    let mut idioms = Vec::with_capacity(4096);
    for i in 0..4096u32 {
        let a = char::from_u32(0x4E00 + i / 64).unwrap();
        let b = char::from_u32(0x4E00 + i % 64).unwrap();
        idioms.push(format!("成{}{}语", a, b));
    }
    ChineseIdiomList::from_idioms(idioms, Vec::new()).unwrap()
}

#[test]
fn test_generate_idiom_mnemonic() {
    let list = sample_list();
    let idiom_mnemonic = IdiomMnemonic::generate(IdiomMnemonicSize::Idioms12).unwrap();
    assert_eq!(idiom_mnemonic.idioms(&list).len(), 12);
    assert!(IdiomMnemonic::validate(&list, &idiom_mnemonic.phrase(&list)));
}

#[test]
fn test_from_entropy() {
    let list = sample_list();
    let entropy = [0x00u8; 16];
    let idiom_mnemonic = IdiomMnemonic::from_entropy(&entropy).unwrap();
    assert_eq!(idiom_mnemonic.idioms(&list).len(), 12);
}

#[test]
fn test_from_phrase() {
    let list = sample_list();
    let entropy = [0x00u8; 16];
    let idiom_mnemonic = IdiomMnemonic::from_entropy(&entropy).unwrap();
    let phrase = idiom_mnemonic.phrase(&list);
    let recovered = IdiomMnemonic::from_phrase(&list, &phrase).unwrap();
    assert_eq!(idiom_mnemonic, recovered);
}

#[test]
fn test_to_entropy_roundtrip() {
    let entropy = [0x00u8; 16];
    let idiom_mnemonic = IdiomMnemonic::from_entropy(&entropy).unwrap();
    let recovered = idiom_mnemonic.to_entropy().unwrap();
    assert_eq!(entropy, recovered.as_slice());
}

#[test]
fn test_validate() {
    let list = sample_list();
    let entropy = [0x00u8; 16];
    let idiom_mnemonic = IdiomMnemonic::from_entropy(&entropy).unwrap();
    assert!(IdiomMnemonic::validate(&list, &idiom_mnemonic.phrase(&list)));
    assert!(!IdiomMnemonic::validate(&list, "invalid phrase"));
}

#[test]
fn test_all_sizes() {
    let list = sample_list();
    for size in [
        IdiomMnemonicSize::Idioms12,
        IdiomMnemonicSize::Idioms15,
        IdiomMnemonicSize::Idioms18,
        IdiomMnemonicSize::Idioms21,
        IdiomMnemonicSize::Idioms24,
    ]
    .iter()
    {
        let idiom_mnemonic = IdiomMnemonic::generate(*size).unwrap();
        assert_eq!(idiom_mnemonic.idioms(&list).len(), size.idiom_count());
        assert!(IdiomMnemonic::validate(&list, &idiom_mnemonic.phrase(&list)));
    }
}

#[test]
fn test_seed_roundtrip() {
    let list = sample_list();
    let entropy = [0x00u8; 16];
    let idiom_mnemonic = IdiomMnemonic::from_entropy(&entropy).unwrap();
    let seed = idiom_mnemonic.to_seed(&list, "");
    assert_eq!(seed.len(), 64);

    let seed_with_iter = idiom_mnemonic.to_seed_with_iterations(&list, "", 4096);
    assert_eq!(seed, seed_with_iter);
}

#[test]
fn test_raw_indices() {
    let entropy = [0x00u8; 16];
    let idiom_mnemonic = IdiomMnemonic::from_entropy(&entropy).unwrap();
    let indices = idiom_mnemonic.raw_indices();
    assert_eq!(indices.len(), 12);
    for &idx in indices {
        assert!(idx < 4096);
    }
}

// ---- further cases ----

#[test]
fn size_tables() {
    assert_eq!(IdiomMnemonicSize::Idioms12.entropy_bits(), 128);
    assert_eq!(IdiomMnemonicSize::Idioms15.entropy_bits(), 160);
    assert_eq!(IdiomMnemonicSize::Idioms18.entropy_bits(), 192);
    assert_eq!(IdiomMnemonicSize::Idioms21.entropy_bits(), 224);
    assert_eq!(IdiomMnemonicSize::Idioms24.entropy_bits(), 256);
    assert_eq!(IdiomMnemonicSize::Idioms21.idiom_count(), 21);
    for size in [IdiomMnemonicSize::Idioms12, IdiomMnemonicSize::Idioms24] {
        assert_eq!(size.idiom_count() * 12, size.entropy_bits() + size.entropy_bits() / 8);
    }
}

#[test]
fn raw_indices_exact() {
    let m = IdiomMnemonic::from_entropy(&[0x00u8; 16]).unwrap();
    assert_eq!(m.raw_indices(), &[0u16, 0, 0, 0, 0, 0, 0, 0, 0, 0, 3, 0x747][..]);
}

#[test]
fn phrase_exact_value() {
    let list = sample_list();
    let m = IdiomMnemonic::from_entropy(&[0x00u8; 16]).unwrap();
    let phrase = m.phrase(&list);
    let mut words = vec![list.index_to_idiom(0).unwrap(); 10];
    words.push(list.index_to_idiom(3).unwrap());
    words.push(list.index_to_idiom(0x747).unwrap());
    assert_eq!(phrase, words.join(" "));
    assert_eq!(m.idioms(&list), words);
}

#[test]
fn from_phrase_errors() {
    let list = sample_list();
    let m = IdiomMnemonic::from_entropy(&[0x11u8; 20]).unwrap();
    let phrase = m.phrase(&list);
    // Wrong word count.
    let words: Vec<&str> = phrase.split(' ').collect();
    assert_eq!(
        IdiomMnemonic::from_phrase(&list, &words[..14].join(" ")),
        Err(Error::InvalidLength(14))
    );
    // An unknown idiom: the first one is named.
    let mut bad = words.clone();
    bad[2] = "不存在的";
    bad[5] = "也不存在";
    assert_eq!(
        IdiomMnemonic::from_phrase(&list, &bad.join(" ")),
        Err(Error::InvalidIdiom("不存在的".to_string()))
    );
    // Another idiom in the first place breaks the checksum.
    let first = list.idiom_to_index(words[0]).unwrap();
    let mut changed = words.clone();
    changed[0] = list.index_to_idiom(first ^ 1).unwrap();
    assert_eq!(
        IdiomMnemonic::from_phrase(&list, &changed.join(" ")),
        Err(Error::ChecksumMismatch)
    );
    assert_eq!(IdiomMnemonic::from_phrase(&list, &phrase).unwrap(), m);
}

#[test]
fn from_entropy_errors() {
    assert_eq!(IdiomMnemonic::from_entropy(&[0u8; 15]), Err(Error::InvalidEntropyLength(120)));
    assert_eq!(IdiomMnemonic::from_entropy(&[]), Err(Error::InvalidEntropyLength(0)));
}

#[test]
fn entropy_mnemonic_roundtrip_all_sizes() {
    for n in [16usize, 20, 24, 28, 32] {
        let entropy: Vec<u8> = (0..n as u32).map(|i| (i * 37 + 11) as u8).collect();
        let m = IdiomMnemonic::from_entropy(&entropy).unwrap();
        assert_eq!(m.raw_indices().len(), n * 3 / 4);
        assert_eq!(m.to_entropy().unwrap(), entropy);
    }
}

#[test]
fn clone_is_equal() {
    let m = IdiomMnemonic::from_entropy(&[0x42u8; 16]).unwrap();
    let c = m.clone();
    assert_eq!(m, c);
}

#[test]
fn mnemonic_lookups() {
    let list = sample_list();
    assert_eq!(IdiomMnemonic::idiom_to_index(&list, "成丁丁语"), Some(65));
    assert_eq!(IdiomMnemonic::index_to_idiom(&list, 65), Some("成丁丁语"));
    assert_eq!(IdiomMnemonic::index_to_idiom(&list, 9999), None);
}

#[test]
fn split_words_cases() {
    assert_eq!(split_words("a b"), vec!["a", "b"]);
    assert_eq!(split_words("\t\u{3000} 一二三四  \t五六七八\u{3000}"), vec!["一二三四", "五六七八"]);
    assert!(split_words("").is_empty());
    assert!(split_words(" \t ").is_empty());
    assert_eq!(split_words("单个成语"), vec!["单个成语"]);
}

#[test]
fn test_size_from_idiom_count() {
    assert_eq!(IdiomMnemonicSize::from_idiom_count(12), Some(IdiomMnemonicSize::Idioms12));
    assert_eq!(IdiomMnemonicSize::from_idiom_count(15), Some(IdiomMnemonicSize::Idioms15));
    assert_eq!(IdiomMnemonicSize::from_idiom_count(18), Some(IdiomMnemonicSize::Idioms18));
    assert_eq!(IdiomMnemonicSize::from_idiom_count(21), Some(IdiomMnemonicSize::Idioms21));
    assert_eq!(IdiomMnemonicSize::from_idiom_count(24), Some(IdiomMnemonicSize::Idioms24));
    assert_eq!(IdiomMnemonicSize::from_idiom_count(13), None);
    assert_eq!(IdiomMnemonicSize::from_idiom_count(0), None);
}

#[test]
fn separator_runs_do_not_change_the_parse() {
    let list = sample_list();
    let mnemonic = IdiomMnemonic::from_entropy(&[0x5Au8; 20]).unwrap();
    let idioms = mnemonic.idioms(&list);
    let runs = [" \t", "\u{3000}", "\t\t \u{3000}", "   "];
    let mut phrase = String::from("\u{3000} ");
    for (i, idiom) in idioms.iter().enumerate() {
        if i > 0 {
            phrase.push_str(runs[i % runs.len()]);
        }
        phrase.push_str(idiom);
    }
    phrase.push_str("\t ");
    let parsed = IdiomMnemonic::from_phrase(&list, &phrase).unwrap();
    assert_eq!(parsed, mnemonic);
    assert_eq!(split_words(&phrase), idioms);
}

#[test]
fn the_result_alias_carries_the_error() {
    let r: fci4096::error::Result<IdiomMnemonic> = IdiomMnemonic::from_entropy(&[0u8; 3]);
    assert_eq!(r, Err(Error::InvalidEntropyLength(24)));
}
