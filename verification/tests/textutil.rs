use boncarobot::permut::permutations;
use boncarobot::shift::{shl, shr};
use boncarobot::util::SplitChunks;

#[test]
fn test_single_item() {
    let mut perms = permutations("f");
    assert_eq!(perms.next(), Some("f".to_string()));
    assert_eq!(perms.next(), None);
}

#[test]
fn test_1234() {
    let mut perms = permutations("4213");
    assert_eq!(perms.next(), Some("1234".to_string()));
    assert_eq!(perms.next(), Some("1243".to_string()));
    assert_eq!(perms.next(), Some("1324".to_string()));
    assert_eq!(perms.next(), Some("1342".to_string()));
    assert_eq!(perms.next(), Some("1423".to_string()));
    assert_eq!(perms.next(), Some("1432".to_string()));
    assert_eq!(perms.next(), Some("2134".to_string()));
    assert_eq!(perms.next(), Some("2143".to_string()));
    assert_eq!(perms.next(), Some("2314".to_string()));
    assert_eq!(perms.next(), Some("2341".to_string()));
    assert_eq!(perms.next(), Some("2413".to_string()));
    assert_eq!(perms.next(), Some("2431".to_string()));
    assert_eq!(perms.next(), Some("3124".to_string()));
    assert_eq!(perms.next(), Some("3142".to_string()));
    assert_eq!(perms.next(), Some("3214".to_string()));
    assert_eq!(perms.next(), Some("3241".to_string()));
    assert_eq!(perms.next(), Some("3412".to_string()));
    assert_eq!(perms.next(), Some("3421".to_string()));
    assert_eq!(perms.next(), Some("4123".to_string()));
    assert_eq!(perms.next(), Some("4132".to_string()));
    assert_eq!(perms.next(), Some("4213".to_string()));
    assert_eq!(perms.next(), Some("4231".to_string()));
    assert_eq!(perms.next(), Some("4312".to_string()));
    assert_eq!(perms.next(), Some("4321".to_string()));
    assert_eq!(perms.next(), None);
}

#[test]
fn test() {
    assert_eq!(shl("_X_C_V_B"), "_Z_X_C_V");
    assert_eq!(shl("QWERTY"), "PQWERT");
    assert_eq!(shl("1936"), "0825");
    assert_eq!(shl("z"), "m");
    assert_eq!(shr("_X_C_V_B"), "_C_V_B_N");
    assert_eq!(shr("QWERTY"), "WERTYU");
    assert_eq!(shr("1936"), "2047");
    assert_eq!(shr("z"), "x");
    assert_eq!(shr("m"), "z");
}

#[test]
fn test_split_chunks() {
    let text = "I am a cool guy lol";
    let mut chunks = SplitChunks::new(text, 5);
    assert_eq!(chunks.next(), Some("I am ".to_string()));
    assert_eq!(chunks.next(), Some("a coo".to_string()));
    assert_eq!(chunks.next(), Some("l guy".to_string()));
    assert_eq!(chunks.next(), Some(" lol".to_string()));
    assert_eq!(chunks.next(), None);
}

#[test]
fn split_chunks_empty_and_zero() {
    let mut empty = SplitChunks::new("", 5);
    assert_eq!(empty.next(), None);
    let mut zero = SplitChunks::new("abc", 0);
    assert_eq!(zero.next(), None);
    let mut short = SplitChunks::new("ab", 5);
    assert_eq!(short.next(), Some("ab".to_string()));
    assert_eq!(short.next(), None);
}

#[test]
fn shift_leaves_unknown_characters() {
    assert_eq!(shl("hello world!"), "gwkki qieks!");
    assert_eq!(shr(" .,"), " .,");
}

#[test]
fn permutations_exhaust_and_stay_exhausted() {
    let mut perms = permutations("ba");
    assert_eq!(perms.next(), Some("ab".to_string()));
    assert_eq!(perms.next(), Some("ba".to_string()));
    assert_eq!(perms.next(), None);
    assert_eq!(perms.next(), None);
}

#[test]
fn permutations_with_duplicates() {
    let mut perms = permutations("aab");
    assert_eq!(perms.next(), Some("aab".to_string()));
    assert_eq!(perms.next(), Some("aba".to_string()));
    assert_eq!(perms.next(), Some("baa".to_string()));
    assert_eq!(perms.next(), None);
}

#[test]
fn split_chunks_count_bytes_not_characters() {
    // two-byte characters: a budget of 4 bytes holds two of them
    let mut chunks = SplitChunks::new("ééééé", 4);
    assert_eq!(chunks.next(), Some("éé".to_string()));
    assert_eq!(chunks.next(), Some("éé".to_string()));
    assert_eq!(chunks.next(), Some("é".to_string()));
    assert_eq!(chunks.next(), None);
    // a character wider than the whole budget is never cut apart
    let mut tight = SplitChunks::new("é", 1);
    assert_eq!(tight.next(), None);
}
