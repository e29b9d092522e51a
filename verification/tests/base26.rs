use clikipedia_tui::util::{base26_code_index, base26_to_usize, usize_to_base26};

#[test]
fn test_base26_conversion() {
    for num in 0..10 {
        let base26 = usize_to_base26(num);
        let result = base26_to_usize(&base26);
        println!("{} -> {} -> {}", num, base26, result);
        assert_eq!(num, result, "Failed for num: {}", num);
    }
}

#[test]
fn round_trip_decode_of_encode() {
    for num in 0..=100000 {
        let code = usize_to_base26(num);
        assert_eq!(base26_to_usize(&code), num);
    }
}

#[test]
fn round_trip_encode_of_decode() {
    let alphabet = "abcdefghijklmnopqrstuvwxyz";
    for a in alphabet.chars() {
        let s: String = [a].iter().collect();
        assert_eq!(usize_to_base26(base26_to_usize(&s)), s);
        for b in alphabet.chars() {
            let s: String = [a, b].iter().collect();
            assert_eq!(usize_to_base26(base26_to_usize(&s)), s);
        }
    }
    for s in ["abcde", "zzzzz", "aaaaa", "mzqxj"] {
        assert_eq!(usize_to_base26(base26_to_usize(s)), s);
    }
}

#[test]
fn code_sequence() {
    assert_eq!(usize_to_base26(0), "a");
    assert_eq!(usize_to_base26(1), "b");
    assert_eq!(usize_to_base26(25), "z");
    assert_eq!(usize_to_base26(26), "aa");
    assert_eq!(usize_to_base26(27), "ab");
    assert_eq!(usize_to_base26(51), "az");
    assert_eq!(usize_to_base26(52), "ba");
    assert_eq!(usize_to_base26(701), "zz");
    assert_eq!(usize_to_base26(702), "aaa");
}

#[test]
fn code_index_rejects_invalid_input() {
    assert!(base26_code_index("").is_none());
    assert!(base26_code_index("A").is_none());
    assert!(base26_code_index("a1").is_none());
    assert!(base26_code_index("a b").is_none());
    assert!(base26_code_index("é").is_none());
    assert_eq!(base26_code_index("a"), Some(0));
    assert_eq!(base26_code_index("aa"), Some(26));
    assert!(base26_code_index("zzzzzzzzzzzzzzzzzzzz").is_none());
}
