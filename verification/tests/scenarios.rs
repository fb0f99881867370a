use fixed_str::BoundaryViolation;
use fixed_str::Str;

fn hello() -> Str<5> {
    Str::<5>::from_utf8(*b"hello").expect("ASCII is valid UTF-8")
}

// 'a' (1 byte), 'é' (2 bytes), '€' (3 bytes), '😀' (4 bytes): 10 bytes in all.
const MIXED: [u8; 10] = [0x61, 0xc3, 0xa9, 0xe2, 0x82, 0xac, 0xf0, 0x9f, 0x98, 0x80];

fn mixed() -> Str<10> {
    Str::<10>::from_utf8(MIXED).expect("well-formed")
}

#[test]
fn empty_string() {
    let s = Str::<0>::zeroed();
    assert_eq!(s.len(), 0);
    assert!(s.is_empty());
    assert!(s.is_char_boundary(0));
    assert!(!s.is_char_boundary(1));
    assert_eq!(s.as_bytes(), &[0u8; 0]);
    assert_eq!(s.as_slice(), "");
    let mut chars = s.chars();
    assert_eq!(chars.next(), None);
    assert_eq!(chars.next(), None);
    let mut indexed = s.char_indices();
    assert_eq!(indexed.next(), None);
    let mut bytes = s.bytes();
    assert_eq!(bytes.next(), None);
    assert_eq!(s.split_at(0), ("", ""));
}

#[test]
fn empty_string_from_bytes() {
    let s = Str::<0>::from_utf8([]).expect("nothing is valid UTF-8");
    assert_eq!(s.len(), 0);
    assert!(s.is_empty());
}

#[test]
fn hello_split_at_end() {
    let s = hello();
    assert_eq!(s.split_at(5), ("hello", ""));
    assert_eq!(s.split_at_checked(5), Ok(("hello", "")));
}

#[test]
fn hello_split_in_the_middle() {
    let s = hello();
    assert_eq!(s.split_at(2), ("he", "llo"));
    assert_eq!(s.split_at_checked(2), Ok(("he", "llo")));
}

#[test]
fn hello_split_at_start() {
    let s = hello();
    assert_eq!(s.split_at(0), ("", "hello"));
}

#[test]
fn split_inside_two_byte_char_is_a_violation() {
    // 'é' followed by padding.
    let s = Str::<4>::from_utf8([0xc3, 0xa9, 0x00, 0x00]).expect("well-formed");
    assert_eq!(
        s.split_at_checked(1),
        Err(BoundaryViolation::InsideChar { index: 1, begin: 0, end: 1 })
    );
    assert_eq!(s.split_at_checked(2), Ok(("é", "\0\0")));
}

#[test]
fn split_past_the_end_is_a_violation() {
    let s = hello();
    assert_eq!(
        s.split_at_checked(6),
        Err(BoundaryViolation::OutOfRange { index: 6, begin: 0, end: 6 })
    );
    assert_eq!(
        s.split_at_checked(usize::MAX),
        Err(BoundaryViolation::OutOfRange { index: usize::MAX, begin: 0, end: usize::MAX })
    );
}

#[test]
fn split_at_every_offset_of_mixed() {
    let s = mixed();
    let whole = "aé€😀";
    for mid in 0..=12usize {
        let boundary = matches!(mid, 0 | 1 | 3 | 6 | 10);
        match s.split_at_checked(mid) {
            Ok((front, back)) => {
                assert!(boundary, "cut at {}", mid);
                assert_eq!(front, &whole[..mid]);
                assert_eq!(back, &whole[mid..]);
                let mut joined = front.as_bytes().to_vec();
                joined.extend_from_slice(back.as_bytes());
                assert_eq!(joined.as_slice(), &MIXED[..]);
            }
            Err(e) => {
                assert!(!boundary, "cut at {}", mid);
                assert_eq!(e.index(), mid);
                if mid > 10 {
                    assert_eq!(e, BoundaryViolation::OutOfRange { index: mid, begin: 0, end: mid });
                } else {
                    assert_eq!(e, BoundaryViolation::InsideChar { index: mid, begin: 0, end: mid });
                }
            }
        }
    }
}

#[test]
fn mixed_width_chars() {
    let s = mixed();
    let mut it = s.chars();
    assert_eq!(it.next(), Some('a'));
    assert_eq!(it.next(), Some('é'));
    assert_eq!(it.next(), Some('€'));
    assert_eq!(it.next(), Some('😀'));
    assert_eq!(it.next(), None);
    assert_eq!(it.next(), None);
}

#[test]
fn mixed_width_char_indices() {
    let s = mixed();
    let mut it = s.char_indices();
    assert_eq!(it.next(), Some((0, 'a')));
    assert_eq!(it.next(), Some((1, 'é')));
    assert_eq!(it.next(), Some((3, '€')));
    assert_eq!(it.next(), Some((6, '😀')));
    assert_eq!(it.next(), None);
    assert_eq!(it.next(), None);
}

#[test]
fn walks_start_afresh() {
    let s = mixed();
    let mut first = s.chars();
    assert_eq!(first.next(), Some('a'));
    assert_eq!(first.next(), Some('é'));
    let mut second = s.chars();
    assert_eq!(second.next(), Some('a'));
    assert_eq!(first.next(), Some('€'));
}

#[test]
fn bytes_in_storage_order() {
    let s = mixed();
    let mut it = s.bytes();
    let mut seen = Vec::new();
    while let Some(b) = it.next() {
        seen.push(b);
    }
    assert_eq!(seen.as_slice(), &MIXED[..]);
    assert_eq!(it.next(), None);
}

#[test]
fn boundaries_of_mixed() {
    let s = mixed();
    let expected = [true, true, false, true, false, false, true, false, false, false, true];
    for (index, want) in expected.iter().enumerate() {
        assert_eq!(s.is_char_boundary(index), *want, "offset {}", index);
    }
    assert!(!s.is_char_boundary(11));
    assert!(!s.is_char_boundary(usize::MAX));
}

#[test]
fn both_ends_are_boundaries() {
    assert!(hello().is_char_boundary(0));
    assert!(hello().is_char_boundary(5));
    assert!(mixed().is_char_boundary(0));
    assert!(mixed().is_char_boundary(10));
    assert!(Str::<7>::zeroed().is_char_boundary(0));
    assert!(Str::<7>::zeroed().is_char_boundary(7));
}

#[test]
fn boundary_test_reads_one_byte() {
    // Every byte value at offset 1 of a raw buffer: a boundary unless 0x80..=0xBF.
    for b in 0..=255u8 {
        let mut s = Str::<3>::zeroed();
        s.as_bytes_mut()[1] = b;
        let continuation = (0x80..=0xbf).contains(&b);
        assert_eq!(s.is_char_boundary(1), !continuation, "byte {:#x}", b);
    }
}

#[test]
fn zeroed_is_all_zero_bytes() {
    let s = Str::<6>::zeroed();
    assert_eq!(s.len(), 6);
    assert!(!s.is_empty());
    assert_eq!(s.as_bytes(), &[0u8; 6]);
    assert_eq!(s.as_slice(), "\0\0\0\0\0\0");
    let mut it = s.chars();
    for _ in 0..6 {
        assert_eq!(it.next(), Some('\0'));
    }
    assert_eq!(it.next(), None);
}

#[test]
fn bytes_round_trip() {
    assert_eq!(hello().as_bytes(), b"hello");
    assert_eq!(mixed().as_bytes(), &MIXED);
    let s = Str::<10>::from_utf8_unchecked(MIXED);
    assert_eq!(s.as_bytes(), &MIXED);
    assert_eq!(s.as_slice(), "aé€😀");
}

#[test]
fn len_is_the_size() {
    assert_eq!(hello().len(), 5);
    assert_eq!(mixed().len(), 10);
    assert!(!hello().is_empty());
}

#[test]
fn whole_slice() {
    assert_eq!(hello().as_slice(), "hello");
    assert_eq!(mixed().as_slice(), "aé€😀");
}

#[test]
fn whole_slice_for_writing() {
    let mut s = hello();
    s.as_slice_mut().make_ascii_uppercase();
    assert_eq!(s.as_bytes(), b"HELLO");
    assert_eq!(s.as_slice(), "HELLO");
}

#[test]
fn sub_slice_between_boundaries() {
    let s = mixed();
    assert_eq!(s.slice_unchecked(1, 6), "é€");
    assert_eq!(s.slice_unchecked(0, 10), "aé€😀");
    assert_eq!(s.slice_unchecked(3, 3), "");
    assert_eq!(s.slice_unchecked(10, 10), "");
    assert_eq!(hello().slice_unchecked(1, 4), "ell");
}

#[test]
fn sub_slice_for_writing() {
    let mut s = hello();
    {
        let part = s.slice_mut_unchecked(1, 4);
        assert_eq!(part, "ell");
        part.make_ascii_uppercase();
    }
    assert_eq!(s.as_bytes(), b"hELLo");
}

#[test]
fn split_for_writing() {
    let mut s = hello();
    {
        let (front, back) = s.split_at_mut(2);
        assert_eq!(front, "he");
        assert_eq!(back, "llo");
        back.make_ascii_uppercase();
    }
    assert_eq!(s.as_bytes(), b"heLLO");
    {
        let (front, back) = s.split_at_mut_checked(5).expect("the end is a boundary");
        assert_eq!(back, "");
        front.make_ascii_lowercase();
    }
    assert_eq!(s.as_bytes(), b"hello");
}

#[test]
fn split_for_writing_refuses_non_boundary() {
    let mut s = mixed();
    assert_eq!(
        s.split_at_mut_checked(2).map(|_| ()),
        Err(BoundaryViolation::InsideChar { index: 2, begin: 0, end: 2 })
    );
    assert_eq!(
        s.split_at_mut_checked(11).map(|_| ()),
        Err(BoundaryViolation::OutOfRange { index: 11, begin: 0, end: 11 })
    );
    assert_eq!(s.as_bytes(), &MIXED);
}

#[test]
fn raw_bytes_for_writing() {
    let mut s = Str::<5>::zeroed();
    s.as_bytes_mut().copy_from_slice(b"world");
    assert_eq!(s.as_bytes(), b"world");
    assert_eq!(s.as_slice(), "world");
}
