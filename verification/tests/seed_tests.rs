use fci4096::seed::{mnemonic_to_seed, mnemonic_to_seed_with_iterations, PBKDF2_ITERATIONS};

#[test]
fn seed_test_seed_generation() {
    let mnemonic =
        "哀感天地 哀毁瘠立 挨肩叠背 唉声叹气 挨三顶五 矮子看戏 爱才若渴 暧昧不明 碍手碍脚 安邦定国 安分守己 安魂定魄";
    let seed = mnemonic_to_seed(mnemonic, "");
    assert_eq!(seed.len(), 64);
}

#[test]
fn test_seed_with_passphrase() {
    let mnemonic = "哀感天地 哀毁瘠立 挨肩叠背 唉声叹气 挨三顶五 矮子看戏 爱才若渴 暧昧不明 碍手碍脚 安邦定国 安分守己 安魂定魄";
    let seed1 = mnemonic_to_seed(mnemonic, "");
    let seed2 = mnemonic_to_seed(mnemonic, "password");
    assert_ne!(seed1, seed2);
}

#[test]
fn test_seed_consistency() {
    let mnemonic = "哀感天地 哀毁瘠立 挨肩叠背 唉声叹气 挨三顶五 矮子看戏 爱才若渴 暧昧不明 碍手碍脚 安邦定国 安分守己 安魂定魄";
    let seed1 = mnemonic_to_seed(mnemonic, "test");
    let seed2 = mnemonic_to_seed(mnemonic, "test");
    assert_eq!(seed1, seed2);
}

#[test]
fn test_seed_custom_iterations() {
    let mnemonic = "哀感天地 哀毁瘠立 挨肩叠背 唉声叹气 挨三顶五 矮子看戏 爱才若渴 暧昧不明 碍手碍脚 安邦定国 安分守己 安魂定魄";
    let seed_default = mnemonic_to_seed(mnemonic, "");
    let seed_custom = mnemonic_to_seed_with_iterations(mnemonic, "", 4096);
    assert_eq!(seed_default, seed_custom);
}

#[test]
fn test_nfkd_normalization_consistency() {
    // NFKD normalization makes full-width/half-width characters consistent
    let mnemonic = "哀感天地 哀毁瘠立 挨肩叠背 唉声叹气 挨三顶五 矮子看戏 爱才若渴 暧昧不明 碍手碍脚 安邦定国 安分守己 安魂定魄";
    let seed1 = mnemonic_to_seed(mnemonic, "TEST");
    let seed2 = mnemonic_to_seed(mnemonic, "TEST");
    assert_eq!(seed1, seed2);

    // Passphrase with emoji and special characters
    let seed3 = mnemonic_to_seed(mnemonic, "密码🔑");
    assert_eq!(seed3.len(), 64);
}

// ---- further cases ----

fn hex(bytes: &[u8]) -> String {
    bytes.iter().map(|b| format!("{:02x}", b)).collect()
}

#[test]
fn seed_exact_value() {
    // PBKDF2-HMAC-SHA512(password = "哀感天地 哀毁瘠立", salt = "mnemonicTREZOR", 4096).
    let seed = mnemonic_to_seed("哀感天地 哀毁瘠立", "TREZOR");
    assert_eq!(
        hex(&seed),
        "dbfc33324a49a9a45d539b1e0d1527a2322bc8c385dc9a2e4857161987250b9cbf2b364676fe2d1682792466a0ea685a7afe59dc7dd51574921a2a4031f60407"
    );
}

#[test]
fn seed_exact_value_one_round() {
    let seed = mnemonic_to_seed_with_iterations("abc", "", 1);
    assert_eq!(
        hex(&seed),
        "5c53f3049bc606cc123ddd34a18b6cfafe5140389451563e3dbe70f88d86fc3a3b27cbdeb34cae4d257319430d162733a924417e5e61f8177c2aaddf8d184c0c"
    );
}

#[test]
fn full_width_passphrase_normalizes() {
    // "ＴＥＳＴ" (full-width) has the NFKD form "TEST".
    let a = mnemonic_to_seed("哀感天地", "ＴＥＳＴ");
    let b = mnemonic_to_seed("哀感天地", "TEST");
    assert_eq!(a, b);
}

#[test]
fn default_iterations_value() {
    assert_eq!(PBKDF2_ITERATIONS, 4096);
    assert_ne!(
        mnemonic_to_seed_with_iterations("abc", "", 2048),
        mnemonic_to_seed_with_iterations("abc", "", 4096)
    );
}
