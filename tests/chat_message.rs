use chat_bubbles::chat_message::split_chat_message;
use chat_bubbles::pixels::flip_x;

fn pair(a: &str, b: &str) -> Option<(String, String)> {
    Some((a.to_string(), b.to_string()))
}

#[test]
fn splits_at_the_first_separator() {
    assert_eq!(split_chat_message("&]SpiralP: &fhello: there", 3), pair("&]SpiralP", "&fhello: there"));
    assert_eq!(split_chat_message("Bob: ", 3), pair("Bob", ""));
}

#[test]
fn short_nicknames_and_plain_lines_do_not_split() {
    assert_eq!(split_chat_message("ab: hi", 3), None);
    assert_eq!(split_chat_message("ab: hi", 2), pair("ab", "hi"));
    assert_eq!(split_chat_message("no separator here", 0), None);
    assert_eq!(split_chat_message("colon:without space", 0), None);
    assert_eq!(split_chat_message("", 0), None);
    assert_eq!(split_chat_message(":", 0), None);
}

#[test]
fn threshold_counts_characters() {
    assert_eq!(split_chat_message("&f┬ &f♂&6 Goodly: &fhi", 5), pair("&f┬ &f♂&6 Goodly", "&fhi"));
    assert_eq!(split_chat_message("♂♂: x", 3), None);
}

#[test]
fn flip_x_mirrors_rows() {
    let mut c: Vec<u32> = vec![1, 2, 3, 4, 5, 6, 7];
    flip_x(&mut c, 3, 2);
    assert_eq!(c, vec![3, 2, 1, 6, 5, 4, 7]);
    let mut d: Vec<u32> = vec![1, 2, 3, 4];
    flip_x(&mut d, 2, 2);
    assert_eq!(d, vec![2, 1, 4, 3]);
    let mut e: Vec<u32> = vec![9];
    flip_x(&mut e, 1, 1);
    assert_eq!(e, vec![9]);
}
