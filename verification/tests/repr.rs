use compact_str::{Repr, HEAP_MASK, LENGTH_MASK, MAX_SIZE};

const EIGHTEEN_MB: usize = 18 * 1024 * 1024;

fn eighteen_mb() -> String {
    "*".repeat(EIGHTEEN_MB)
}

fn check_create(s: &str) {
    let repr = Repr::new(s);
    assert_eq!(repr.as_str(), s);
    assert_eq!(repr.len(), s.len());
}

#[test]
fn test_create_inline() {
    check_create("hello world!");
}

#[test]
fn test_create_heap() {
    check_create("this is a long string that should be stored on the heap");
}

fn check_with_capacity(cap: usize) {
    let r = Repr::with_capacity(cap);
    assert!(r.capacity() >= MAX_SIZE);
    assert_eq!(r.len(), 0);
}

#[test]
fn test_with_capacity_empty() {
    check_with_capacity(0);
}

#[test]
fn test_with_capacity_short() {
    check_with_capacity(10);
}

#[test]
fn test_with_capacity_long() {
    check_with_capacity(64);
}

#[test]
fn test_with_capacity_huge() {
    check_with_capacity(EIGHTEEN_MB);
}

fn check_from_utf8_valid(s: &str) {
    let bytes = s.as_bytes();
    let r = Repr::from_utf8(bytes).expect("valid UTF-8");
    assert_eq!(r.as_str(), s);
    assert_eq!(r.len(), s.len());
}

#[test]
fn test_from_utf8_valid_empty() {
    check_from_utf8_valid("");
}

#[test]
fn test_from_utf8_valid_short() {
    check_from_utf8_valid("abc");
}

#[test]
fn test_from_utf8_valid_long() {
    check_from_utf8_valid("hello world! I am a longer string 🦀");
}

fn check_from_string(s: String) {
    let r = Repr::from_string(s.clone());
    assert_eq!(r.len(), s.len());
    assert_eq!(r.as_str(), s.as_str());
}

#[test]
fn test_from_string_empty() {
    check_from_string(String::new());
}

#[test]
fn test_from_string_short() {
    check_from_string(String::from("nyc 🗽"));
}

#[test]
fn test_from_string_long() {
    check_from_string(String::from("this is a really long string, which is intended"));
}

fn check_into_string(control: &str) {
    let r = Repr::new(control);
    let s = r.into_string();
    assert_eq!(control.len(), s.len());
    assert_eq!(control, s.as_str());
}

#[test]
fn test_into_string_empty() {
    check_into_string("");
}

#[test]
fn test_into_string_short() {
    check_into_string("nyc 🗽");
}

#[test]
fn test_into_string_long() {
    check_into_string("this is a really long string, which is intended");
}

fn check_push_str(control: &str, append: &str, is_heap: bool) {
    let mut r = Repr::new(control);
    let mut c = String::from(control);
    r.push_str(append);
    c.push_str(append);
    assert_eq!(r.as_str(), c.as_str());
    assert_eq!(r.len(), c.len());
    assert_eq!(r.is_heap_allocated(), is_heap);
}

#[test]
fn test_push_str_empty() {
    check_push_str("", "a", false);
}

#[test]
fn test_push_str_empty_emoji() {
    check_push_str("", "🗽", false);
}

#[test]
fn test_push_str_inline_to_heap() {
    check_push_str("abc", "🗽🙂🦀🌈👏🐶", true);
}

#[test]
fn test_push_str_heap_to_heap() {
    check_push_str("i am a long string that will be on the heap", "extra", true);
}

fn check_push_str_from_buf(buf: usize, append: usize) {
    check_push_str(&"*".repeat(buf), &"*".repeat(append), true);
}

#[test]
fn test_push_str_from_buf_empty_to_heap_capacity() {
    check_push_str_from_buf(0, EIGHTEEN_MB);
}

#[test]
fn test_push_str_from_buf_inline_to_heap_capacity() {
    check_push_str_from_buf(8, EIGHTEEN_MB);
}

#[test]
fn test_push_str_from_buf_heap_inline_to_heap_capacity() {
    check_push_str_from_buf(128, EIGHTEEN_MB);
}

#[test]
fn test_push_str_from_buf_heap_capacity_to_heap_capacity() {
    check_push_str_from_buf(EIGHTEEN_MB, 64);
}

fn check_reserve(initial: &str, additional: usize, is_heap: bool) {
    let mut r = Repr::new(initial);
    r.reserve(additional);
    assert!(r.capacity() >= initial.len() + additional);
    assert_eq!(r.is_heap_allocated(), is_heap);
    assert_eq!(r.as_str(), initial);
}

#[test]
fn test_reserve_empty() {
    check_reserve("", 0, false);
    check_reserve("", 10, false);
    check_reserve("", 64, true);
}

#[test]
fn test_reserve_short() {
    check_reserve("abc", 0, false);
    check_reserve("abc", 8, false);
    check_reserve("abc", 64, true);
}

#[test]
fn test_reserve_large() {
    check_reserve("I am a long string that will be on the heap", 0, true);
    check_reserve("I am a long string that will be on the heap", 10, true);
    check_reserve("I am a long string that will be on the heap", EIGHTEEN_MB, true);
}

#[test]
#[should_panic(expected = "Attempted to reserve more than 'usize' bytes")]
fn test_reserve_overflow() {
    let mut r = Repr::new("abc");
    r.reserve(usize::MAX);
}

fn check_clone(initial: &str) {
    let r_a = Repr::new(initial);
    let r_b = r_a.clone();
    assert_eq!(r_a.as_str(), initial);
    assert_eq!(r_a.len(), initial.len());
    assert_eq!(r_a.as_str(), r_b.as_str());
    assert_eq!(r_a.len(), r_b.len());
    assert_eq!(r_a.capacity(), r_b.capacity());
    assert_eq!(r_a.is_heap_allocated(), r_b.is_heap_allocated());
}

#[test]
fn test_clone_empty() {
    check_clone("");
}

#[test]
fn test_clone_short() {
    check_clone("abc");
}

#[test]
fn test_clone_long() {
    check_clone("i am a longer string that will be on the heap");
}

#[test]
fn test_clone_huge() {
    check_clone(&eighteen_mb());
}

fn check_from_box_str(initial: &str) {
    let box_str = String::from(initial).into_boxed_str();
    let r = Repr::from_box_str(box_str);
    assert_eq!(r.as_str(), initial);
    assert_eq!(r.len(), initial.len());
    assert_eq!(r.capacity(), initial.len());
    // when converting from a Box<str> we do not automatically inline the string
    assert!(r.is_heap_allocated());
}

#[test]
fn test_from_box_str_single() {
    check_from_box_str("q");
}

#[test]
fn test_from_box_str_short() {
    check_from_box_str("abc");
}

#[test]
fn test_from_box_str_long() {
    check_from_box_str("this is (another) long string that will be heap allocated");
}

#[test]
fn test_from_box_str_huge() {
    check_from_box_str(&eighteen_mb());
}

#[test]
fn test_from_box_str_empty() {
    let box_str = String::from("").into_boxed_str();

    let r = Repr::from_box_str(box_str);

    assert_eq!(r.as_str(), "");
    assert_eq!(r.len(), 0);

    // when converting from a Box<str> we do not automatically inline the string, unless the
    // Box<str> is empty, then we return an empty inlined string
    assert_eq!(r.capacity(), MAX_SIZE);
    assert!(!r.is_heap_allocated());
}

#[test]
fn max_size_is_the_size_of_a_string() {
    assert_eq!(MAX_SIZE, std::mem::size_of::<String>());
}

#[test]
fn text_of_every_short_length_is_inline() {
    for len in 0..=MAX_SIZE {
        let s = "x".repeat(len);
        let r = Repr::new(&s);
        assert!(!r.is_heap_allocated());
        assert_eq!(r.len(), len);
        assert_eq!(r.capacity(), MAX_SIZE);
        assert_eq!(r.as_slice(), s.as_bytes());
        let i = Repr::new_inline(&s);
        assert!(!i.is_heap_allocated());
        assert_eq!(i.as_str(), s);
    }
    let s = "x".repeat(MAX_SIZE + 1);
    let r = Repr::new(&s);
    assert!(r.is_heap_allocated());
    assert_eq!(r.capacity(), MAX_SIZE + 1);
    assert_eq!(r.as_str(), s);
}

#[test]
fn full_inline_text_may_end_in_any_text_byte() {
    // U+00BF ends in 0xBF, the largest byte that ends a character
    for end in ["\u{0}", "\u{7f}", "\u{80}", "\u{bf}", "\u{ffff}", "\u{10ffff}"] {
        let mut s = "x".repeat(MAX_SIZE - end.len());
        s.push_str(end);
        let r = Repr::new(&s);
        assert!(!r.is_heap_allocated());
        assert_eq!(r.len(), MAX_SIZE);
        assert_eq!(r.as_str(), s);
    }
}

#[test]
fn inline_length_is_kept_in_the_last_byte() {
    for len in 0..MAX_SIZE {
        let mut r = Repr::new(&"x".repeat(len));
        let buf = r.as_mut_buf();
        assert_eq!(buf.len(), MAX_SIZE);
        assert_eq!(buf[MAX_SIZE - 1], LENGTH_MASK + len as u8);
        assert_ne!(buf[MAX_SIZE - 1], HEAP_MASK);
    }
}

#[test]
fn unchecked_bytes_are_kept_whatever_they_are() {
    for last in 0..=255u8 {
        for len in [1, MAX_SIZE - 1, MAX_SIZE, MAX_SIZE + 1] {
            let mut bytes = vec![b'x'; len];
            bytes[len - 1] = last;
            let r = Repr::from_utf8_unchecked(&bytes);
            assert_eq!(r.as_slice(), &bytes[..]);
            assert_eq!(r.len(), len);
            let inline = len < MAX_SIZE || (len == MAX_SIZE && last < LENGTH_MASK);
            assert_eq!(r.is_heap_allocated(), !inline);
            if len == MAX_SIZE && !inline {
                assert_eq!(r.capacity(), MAX_SIZE + 1);
            }
        }
    }
}

#[test]
fn invalid_utf8_is_reported() {
    let e = Repr::from_utf8(b"abc\xff").err().unwrap();
    assert_eq!(e.valid_up_to, 3);
    assert_eq!(e.error_len, Some(1));
    let e = Repr::from_utf8(b"ab\xf0\x9f\x92").err().unwrap();
    assert_eq!(e.valid_up_to, 2);
    assert_eq!(e.error_len, None);
    let e = Repr::from_utf8(b"a\xff").err().unwrap();
    assert_eq!(e.valid_up_to, 1);
    assert_eq!(e.error_len, Some(1));
    // no byte behind these makes them valid: the encodings would be overlong, of a surrogate or too large
    for bytes in [&b"\xc0"[..], &b"\xe0\x80"[..], &b"\xed\xa0"[..], &b"\xf4\x90"[..]] {
        assert_eq!(Repr::from_utf8(bytes).err().unwrap().error_len, Some(1));
    }
    for bytes in [&b"\xc2"[..], &b"\xe0\xa0"[..], &b"\xed\x9f"[..], &b"\xf4\x8f"[..]] {
        assert_eq!(Repr::from_utf8(bytes).err().unwrap().error_len, None);
    }
    let e = Repr::from_utf8(b"\xe2\x82x").err().unwrap();
    assert_eq!(e.valid_up_to, 0);
    assert_eq!(e.error_len, Some(2));
}

#[test]
fn string_keeps_its_capacity() {
    let mut s = String::with_capacity(100);
    s.push_str("short");
    let capacity = s.capacity();
    let r = Repr::from_string(s);
    assert!(r.is_heap_allocated());
    assert_eq!(r.capacity(), capacity);
    assert_eq!(r.as_str(), "short");
    assert_eq!(r.into_string(), "short");

    let r = Repr::from_string(String::new());
    assert!(!r.is_heap_allocated());
    assert_eq!(r.capacity(), MAX_SIZE);

    let r = Repr::from_string_with_capacity(String::from("abc"), 40);
    assert!(r.is_heap_allocated());
    assert_eq!(r.capacity(), 40);
    assert_eq!(r.as_str(), "abc");
}

#[test]
fn reserve_with_enough_room_changes_nothing() {
    let s = "I am a long string that will be on the heap";
    let mut r = Repr::new(s);
    r.reserve(0);
    assert_eq!(r.capacity(), s.len());

    let mut r = Repr::from_box_str(String::from("abc").into_boxed_str());
    r.reserve(0);
    assert!(r.is_heap_allocated());
    assert_eq!(r.capacity(), 3);

    let mut r = Repr::with_capacity(100);
    r.reserve(100);
    assert_eq!(r.capacity(), 100);
}

#[test]
fn reserve_grows_by_half_or_by_what_is_needed() {
    let mut r = Repr::new(&"x".repeat(100));
    r.reserve(1);
    assert_eq!(r.capacity(), 150);
    r.reserve(50);
    assert_eq!(r.capacity(), 150);
    r.reserve(200);
    assert_eq!(r.capacity(), 300);
    assert_eq!(r.as_str(), "x".repeat(100));

    let mut r = Repr::new("abc");
    r.reserve(MAX_SIZE);
    assert!(r.is_heap_allocated());
    assert_eq!(r.capacity(), MAX_SIZE + 3);
}

#[test]
fn reserve_brings_a_small_heap_string_inline() {
    let mut r = Repr::from_box_str(String::from("abc").into_boxed_str());
    r.reserve(1);
    assert!(!r.is_heap_allocated());
    assert_eq!(r.capacity(), MAX_SIZE);
    assert_eq!(r.as_str(), "abc");
}

#[test]
fn shrink_to_gives_up_room() {
    let mut r = Repr::with_capacity(100);
    r.push_str(&"x".repeat(40));
    r.shrink_to(60);
    assert_eq!(r.capacity(), 60);
    r.shrink_to(80);
    assert_eq!(r.capacity(), 60);
    r.shrink_to(0);
    assert_eq!(r.capacity(), 40);
    assert!(r.is_heap_allocated());
    assert_eq!(r.as_str(), "x".repeat(40));
}

#[test]
fn shrink_to_moves_short_text_inline() {
    for len in [0, 1, MAX_SIZE - 1, MAX_SIZE] {
        let s = "x".repeat(len);
        let mut r = Repr::with_capacity(100);
        r.push_str(&s);
        assert!(r.is_heap_allocated());
        r.shrink_to(0);
        assert!(!r.is_heap_allocated());
        assert_eq!(r.capacity(), MAX_SIZE);
        assert_eq!(r.as_str(), s);
        r.shrink_to(50);
        assert_eq!(r.capacity(), MAX_SIZE);
    }
}

#[test]
fn pop_takes_off_what_push_put_on() {
    for c in ['a', '\u{7ff}', '\u{20ac}', '🦀'] {
        for len in [0, 3, MAX_SIZE - c.len_utf8(), MAX_SIZE, 40] {
            let s = "x".repeat(len);
            let mut r = Repr::new(&s);
            r.push_str(&c.to_string());
            let capacity = r.capacity();
            assert_eq!(r.len(), len + c.len_utf8());
            assert_eq!(r.pop(), Some(c));
            assert_eq!(r.as_str(), s);
            assert_eq!(r.capacity(), capacity);
        }
    }
    let mut r = Repr::new("");
    assert_eq!(r.pop(), None);
    assert_eq!(r.len(), 0);
}

#[test]
fn pop_empties_the_string_from_the_end() {
    let s = "aß€🦀 and some more text behind it";
    let mut r = Repr::new(s);
    for c in s.chars().rev() {
        assert_eq!(r.pop(), Some(c));
    }
    assert_eq!(r.pop(), None);
}

#[test]
fn buffer_can_be_written_directly() {
    let mut r = Repr::with_capacity(50);
    let buf = r.as_mut_buf();
    assert_eq!(buf.len(), 50);
    buf[..5].copy_from_slice(b"hello");
    r.set_len(5);
    assert_eq!(r.as_str(), "hello");

    let mut r = Repr::new("");
    r.as_mut_buf().copy_from_slice("y".repeat(MAX_SIZE).as_bytes());
    r.set_len(MAX_SIZE);
    assert_eq!(r.as_str(), "y".repeat(MAX_SIZE));
    r.set_len(2);
    assert_eq!(r.as_str(), "yy");
}

#[test]
fn extend_appends_characters() {
    let mut r = Repr::new("abc");
    r.extend_chars(0, &[]);
    assert_eq!(r.as_str(), "abc");
    r.extend_chars(2, &['d', '🦀']);
    assert_eq!(r.as_str(), "abcd🦀");
    assert!(!r.is_heap_allocated());
    r.extend_chars(100, &['ß']);
    assert_eq!(r.as_str(), "abcd🦀ß");
    assert_eq!(r.capacity(), 108);
    r.extend_chars(1000, &[]);
    assert_eq!(r.capacity(), 108);
}

#[test]
fn extend_appends_strings() {
    let mut r = Repr::new("");
    r.extend_strs(&["one", "", " two", " 🦀"]);
    assert_eq!(r.as_str(), "one two 🦀");
    r.extend_strs(&[" this makes the string a long one"]);
    assert_eq!(r.as_str(), "one two 🦀 this makes the string a long one");
    assert!(r.is_heap_allocated());
}

#[test]
fn appending_in_pieces_is_appending_at_once() {
    let mut pieces = Repr::new("nyc ");
    pieces.push_str("🗽");
    pieces.push_str(" and a good deal of text");
    let mut whole = Repr::new("nyc ");
    whole.push_str("🗽 and a good deal of text");
    assert_eq!(pieces.as_str(), "nyc 🗽 and a good deal of text");
    assert_eq!(pieces.as_slice(), whole.as_slice());
    assert!(pieces.capacity() >= pieces.len());
}

#[test]
fn same_text_has_the_same_bytes_wherever_it_is() {
    let inline = Repr::new("nyc 🗽");
    let heap = Repr::from_box_str(String::from("nyc 🗽").into_boxed_str());
    assert!(!inline.is_heap_allocated());
    assert!(heap.is_heap_allocated());
    assert_eq!(inline.as_str(), heap.as_str());
    assert_eq!(inline.as_slice(), heap.as_slice());
    assert_eq!(inline.into_string(), heap.into_string());
}

#[test]
fn bytes_behind_the_text_are_left_alone() {
    // inline: only the length byte changes
    let mut r = Repr::new("abcd");
    r.as_mut_buf()[10] = 7;
    assert_eq!(r.pop(), Some('d'));
    r.push_str("xyz");
    r.extend_chars(1, &['!']);
    r.extend_strs(&["?"]);
    let buf = r.as_mut_buf();
    assert_eq!(&buf[..11], b"abcxyz!?\0\0\x07");
    assert_eq!(buf[MAX_SIZE - 1], LENGTH_MASK + 8);

    // on the heap, and when the buffer is resized
    let mut r = Repr::with_capacity(60);
    r.push_str("abcd");
    r.as_mut_buf()[40] = 7;
    assert_eq!(r.pop(), Some('d'));
    r.push_str("xyz");
    r.extend_chars(1, &['!']);
    r.extend_strs(&["?"]);
    assert_eq!(r.as_mut_buf()[40], 7);
    r.reserve(80);
    assert_eq!(r.capacity(), 88);
    assert_eq!(r.as_mut_buf()[40], 7);
    r.shrink_to(41);
    assert_eq!(r.capacity(), 41);
    assert_eq!(r.as_mut_buf()[40], 7);
    assert_eq!(r.as_str(), "abcxyz!?");
}

#[test]
fn appending_leaves_inline_when_the_text_gets_too_long() {
    for count in 0..2 * MAX_SIZE {
        let mut by_chars = Repr::new("");
        by_chars.extend_chars(0, &vec!['x'; count]);
        let mut by_strs = Repr::new("");
        by_strs.extend_strs(&vec!["x"; count]);
        let s = "x".repeat(count);
        assert_eq!(by_chars.as_str(), s);
        assert_eq!(by_strs.as_str(), s);
        assert_eq!(by_chars.is_heap_allocated(), count > MAX_SIZE);
        assert_eq!(by_strs.is_heap_allocated(), count > MAX_SIZE);
        assert!(by_strs.capacity() >= count);
    }
}
