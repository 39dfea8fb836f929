use fci4096::ChineseIdiomList;

fn sample_idioms() -> Vec<String> {
    let mut idioms = Vec::with_capacity(4096);
    for i in 0..4096u32 {
        let a = char::from_u32(0x4E00 + i / 64).unwrap();
        let b = char::from_u32(0x4E00 + i % 64).unwrap();
        idioms.push(format!("成{}{}语", a, b));
    }
    idioms
}

fn idiom_text(sep: &str) -> String {
    let mut txt = String::new();
    for idiom in sample_idioms() {
        txt.push_str(&idiom);
        txt.push_str(sep);
    }
    txt
}

fn pinyin_text() -> String {
    let mut csv = String::from("index,chinese_idiom,pinyin\n");
    for (i, idiom) in sample_idioms().iter().enumerate() {
        csv.push_str(&format!("{},{},cheng{} yu4\n", i, idiom, i % 4 + 1));
    }
    csv
}

#[test]
fn test_from_text_plain() {
    let list = ChineseIdiomList::from_text(&idiom_text("\n"), None).unwrap();
    let idioms = sample_idioms();
    assert_eq!(list.index_to_idiom(0), Some(idioms[0].as_str()));
    assert_eq!(list.index_to_idiom(4095), Some(idioms[4095].as_str()));
    assert_eq!(list.idiom_to_index(&idioms[1234]), Some(1234));
    assert_eq!(list.get_pinyin(0), None);
}

#[test]
fn test_from_text_without_final_newline() {
    let mut txt = idiom_text("\n");
    txt.pop();
    let list = ChineseIdiomList::from_text(&txt, None).unwrap();
    assert_eq!(list.index_to_idiom(4095), Some(sample_idioms()[4095].as_str()));
}

#[test]
fn test_from_text_crlf_bom_and_spaces() {
    let mut txt = String::from("\u{feff}");
    for (i, idiom) in sample_idioms().iter().enumerate() {
        if i % 2 == 0 && i > 0 {
            txt.push_str(&format!("  {}\t\r\n", idiom));
        } else {
            txt.push_str(&format!("{}\r\n", idiom));
        }
    }
    let list = ChineseIdiomList::from_text(&txt, None).unwrap();
    let idioms = sample_idioms();
    assert_eq!(list.index_to_idiom(0), Some(idioms[0].as_str()));
    assert_eq!(list.index_to_idiom(2), Some(idioms[2].as_str()));
    assert_eq!(list.index_to_idiom(3), Some(idioms[3].as_str()));
}

#[test]
fn test_from_text_with_pinyin() {
    let list = ChineseIdiomList::from_text(&idiom_text("\n"), Some(&pinyin_text())).unwrap();
    assert_eq!(list.get_pinyin(0), Some("cheng1 yu4"));
    assert_eq!(list.get_pinyin(7), Some("cheng4 yu4"));
    assert_eq!(list.get_pinyin(4095), Some("cheng4 yu4"));
    assert_eq!(list.get_pinyin(4096), None);
}

#[test]
fn test_from_text_full_width_commas() {
    let csv = pinyin_text().replace(',', "\u{ff0c}");
    let list = ChineseIdiomList::from_text(&idiom_text("\n"), Some(&csv)).unwrap();
    assert_eq!(list.get_pinyin(1), Some("cheng2 yu4"));
}

#[test]
fn test_from_text_padded_fields() {
    let mut csv = String::from("index,chinese_idiom,pinyin\r\n");
    for (i, idiom) in sample_idioms().iter().enumerate() {
        csv.push_str(&format!(" +{} , {} , py{} \r\n", i, idiom, i));
    }
    let list = ChineseIdiomList::from_text(&idiom_text("\n"), Some(&csv)).unwrap();
    assert_eq!(list.get_pinyin(42), Some("py42"));
}

#[test]
fn test_from_text_too_few_lines() {
    let idioms = sample_idioms();
    let txt = idioms[..4095].join("\n");
    assert!(ChineseIdiomList::from_text(&txt, None).is_none());
}

#[test]
fn test_from_text_too_many_lines() {
    let txt = format!("{}一二三四\n", idiom_text("\n"));
    assert!(ChineseIdiomList::from_text(&txt, None).is_none());
}

#[test]
fn test_from_text_blank_line() {
    let mut idioms = sample_idioms();
    idioms[10] = String::new();
    assert!(ChineseIdiomList::from_text(&idioms.join("\n"), None).is_none());
}

#[test]
fn test_from_text_duplicate() {
    let mut idioms = sample_idioms();
    idioms[10] = idioms[11].clone();
    assert!(ChineseIdiomList::from_text(&idioms.join("\n"), None).is_none());
}

#[test]
fn test_from_text_wrong_length_idiom() {
    let mut idioms = sample_idioms();
    idioms[10] = String::from("一二三");
    assert!(ChineseIdiomList::from_text(&idioms.join("\n"), None).is_none());
}

#[test]
fn test_from_text_bad_header() {
    let csv = pinyin_text().replacen("index", "idx", 1);
    assert!(ChineseIdiomList::from_text(&idiom_text("\n"), Some(&csv)).is_none());
}

#[test]
fn test_from_text_empty_csv() {
    assert!(ChineseIdiomList::from_text(&idiom_text("\n"), Some("")).is_none());
}

#[test]
fn test_from_text_index_mismatch() {
    let csv = pinyin_text().replacen("\n5,", "\n6,", 1);
    assert!(ChineseIdiomList::from_text(&idiom_text("\n"), Some(&csv)).is_none());
}

#[test]
fn test_from_text_bad_index() {
    let csv = pinyin_text().replacen("\n5,", "\nfive,", 1);
    assert!(ChineseIdiomList::from_text(&idiom_text("\n"), Some(&csv)).is_none());
}

#[test]
fn test_from_text_bom_before_index() {
    let csv = pinyin_text().replacen("\n5,", "\n\u{feff}5,", 1);
    assert!(ChineseIdiomList::from_text(&idiom_text("\n"), Some(&csv)).is_none());
}

#[test]
fn test_from_text_idiom_mismatch() {
    let idioms = sample_idioms();
    let csv = pinyin_text().replacen(&format!("\n5,{},", idioms[5]), &format!("\n5,{},", idioms[6]), 1);
    assert!(ChineseIdiomList::from_text(&idiom_text("\n"), Some(&csv)).is_none());
}

#[test]
fn test_from_text_extra_field() {
    let csv = pinyin_text().replacen("cheng1 yu4\n", "cheng1,yu4\n", 1);
    assert!(ChineseIdiomList::from_text(&idiom_text("\n"), Some(&csv)).is_none());
}

#[test]
fn test_from_text_missing_row() {
    let mut csv = pinyin_text();
    csv.pop();
    let cut = csv.rfind('\n').unwrap();
    csv.truncate(cut + 1);
    assert!(ChineseIdiomList::from_text(&idiom_text("\n"), Some(&csv)).is_none());
}
