use slice_find::{Sequence, SliceFind, SliceReplace};

#[test]
fn test_trait_find() {
    let a = b"the program prints hello world to stdout";
    assert_eq!(a.find(b"program"), Some(4));
    assert_eq!(a.find(b"the"), Some(0));
    assert_eq!(a.find(b"stdout"), Some(34));
    assert_eq!(a.find(b""), Some(0));
    assert_eq!(a.find(a), Some(0));
    assert_eq!(a.find(b"apple"), None);
}

#[test]
fn test_trait_replace() {
    let a = b"abcdefg";
    assert_eq!(a.replace("ab", "io"), b"iocdefg");
    assert_eq!(a.replace("ef", "z"), b"abcdzg");
    assert_eq!(a.replace("cd", "foo"), b"abfooefg");
    assert_eq!(a.replace("fg", "fe"), b"abcdefe");
}

#[test]
fn find_on_vec_slice_and_array() {
    let v: Vec<u32> = vec![7, 8, 9, 8, 9, 10];
    assert_eq!(v.find(vec![8, 9, 10]), Some(3));
    assert_eq!(v.find([8u32, 9]), Some(1));
    assert_eq!(v[..].find(&v[2..4]), Some(2));
    assert_eq!(v.find(&[11u32][..]), None);
    let array = [1i64, 2, 3];
    assert_eq!(array.find([3i64]), Some(2));
}

#[test]
fn contains_on_containers() {
    let v: Vec<u8> = b"hello world".to_vec();
    assert!(SliceFind::contains(&v, "o w"));
    assert!(!SliceFind::contains(&v, "ow"));
    assert!(SliceFind::contains(&v, ""));
    let array = *b"xyz";
    assert!(SliceFind::contains(&array, b"yz"));
    assert!(!SliceFind::contains(&array, b"zy"));
    assert!(SliceFind::contains(&v[..], &v[..]));
}

#[test]
fn find_defaults_to_the_leftmost_of_overlapping_occurrences() {
    let v = b"aaaa";
    assert_eq!(v.find(b"aa"), Some(0));
    let w = b"abababc";
    assert_eq!(w.find(b"ababc"), Some(2));
}

#[test]
fn sequence_elements_of_each_container() {
    let v: Vec<u8> = vec![1, 2, 3];
    assert_eq!(v.as_elements(), &[1u8, 2, 3][..]);
    assert_eq!([4u8, 5].as_elements(), &[4u8, 5][..]);
    assert_eq!(v[1..].as_elements(), &[2u8, 3][..]);
    assert_eq!("az".as_elements(), &[97u8, 122][..]);
    assert_eq!((&v).as_elements(), &[1u8, 2, 3][..]);
    let empty: [u16; 0] = [];
    assert_eq!(empty.as_elements().len(), 0);
}

#[test]
fn replace_on_vec_and_slice() {
    let v: Vec<u16> = vec![1, 2, 3, 1, 2, 3];
    assert_eq!(v.replace([2u16, 3], [9u16]), vec![1, 9, 1, 9]);
    assert_eq!(v[..].replace(vec![1u16], vec![0u16, 0]), vec![0, 0, 2, 3, 0, 0, 2, 3]);
    assert_eq!(v.replace([4u16], [5u16]), v);
}
