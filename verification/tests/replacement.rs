use slice_find::replace::slice_replace;
use slice_find::SliceReplace;

#[test]
fn replace_same_length_in_place() {
    assert_eq!(slice_replace(b"abcdefg", b"ab", b"io"), b"iocdefg");
    assert_eq!(slice_replace(b"abcdefg", b"fg", b"fe"), b"abcdefe");
    assert_eq!(slice_replace(b"abcabcabc", b"bc", b"xy"), b"axyaxyaxy");
}

#[test]
fn replace_by_longer_and_by_shorter() {
    assert_eq!(slice_replace(b"abcdefg", b"cd", b"foo"), b"abfooefg");
    assert_eq!(slice_replace(b"abcdefg", b"ef", b"z"), b"abcdzg");
}

#[test]
fn replace_keeps_what_stands_before_earlier_replacements() {
    assert_eq!(slice_replace(b"abcabc", b"b", b"xy"), b"axycaxyc");
    assert_eq!(slice_replace(b"one two one two one", b"one", b"3"), b"3 two 3 two 3");
    assert_eq!(slice_replace(b"--a--b--", b"--", b"+"), b"+a+b+");
}

#[test]
fn replace_every_occurrence_of_a_single_element() {
    assert_eq!(slice_replace(&[1u8, 0, 1, 1, 0], &[1], &[7, 7]), vec![7, 7, 0, 7, 7, 7, 7, 0]);
    assert_eq!(slice_replace(&[1u8, 0, 1, 1, 0], &[0], &[5]), vec![1, 5, 1, 1, 5]);
}

#[test]
fn replace_by_nothing_removes_the_occurrences() {
    assert_eq!(slice_replace(b"banana", b"an", b""), b"ba");
    assert_eq!(slice_replace(b"aaaa", b"a", b""), b"");
    assert_eq!(slice_replace(b"xaxax", b"a", b""), b"xxx");
}

#[test]
fn replace_takes_occurrences_from_the_left_without_overlap() {
    assert_eq!(slice_replace(b"aaa", b"aa", b"b"), b"ba");
    assert_eq!(slice_replace(b"aaaa", b"aa", b"b"), b"bb");
    assert_eq!(slice_replace(b"ababa", b"aba", b"c"), b"cba");
}

#[test]
fn replace_does_not_search_what_it_put_in() {
    assert_eq!(slice_replace(b"aXb", b"X", b"XX"), b"aXXb");
    assert_eq!(slice_replace(b"ab", b"b", b"ab"), b"aab");
    assert_eq!(slice_replace(b"aab", b"ab", b"b"), b"ab");
    assert_eq!(slice_replace(b"xx", b"x", b"xx"), b"xxxx");
}

#[test]
fn replace_without_occurrence_copies_the_haystack() {
    assert_eq!(slice_replace(b"abcdefg", b"xyz", b"123"), b"abcdefg");
    assert_eq!(slice_replace(b"ab", b"abc", b"z"), b"ab");
    assert_eq!(slice_replace(b"", b"a", b"b"), b"");
}

#[test]
fn replace_whole_haystack() {
    assert_eq!(slice_replace(b"abc", b"abc", b""), b"");
    assert_eq!(slice_replace(b"abc", b"abc", b"abcabc"), b"abcabc");
    assert_eq!(slice_replace(b"abc", b"abc", b"xyz"), b"xyz");
}

#[test]
fn replace_by_itself_changes_nothing() {
    assert_eq!(slice_replace(b"abcabc", b"bc", b"bc"), b"abcabc");
    assert_eq!(slice_replace(b"abcabc", b"", b""), b"abcabc");
    assert_eq!(slice_replace(b"", b"", b""), b"");
    let a = b"abcdefg";
    assert_eq!(a.replace("cd", "cd"), b"abcdefg");
    assert_eq!(a.replace("zz", "zz"), b"abcdefg");
}

#[test]
fn replace_and_replace_back() {
    let haystack = b"the cat sat on the mat";
    let there = slice_replace(haystack, b"at", b"#!");
    assert_eq!(there, b"the c#! s#! on the m#!");
    assert_eq!(slice_replace(&there, b"#!", b"at"), haystack);

    let longer = slice_replace(haystack, b"the", b"<THE>");
    assert_eq!(longer, b"<THE> cat sat on <THE> mat");
    assert_eq!(slice_replace(&longer, b"<THE>", b"the"), haystack);

    let adjacent = slice_replace(b"aab", b"a", b"xx");
    assert_eq!(adjacent, b"xxxxb");
    assert_eq!(slice_replace(&adjacent, b"xx", b"a"), b"aab");
}

#[test]
fn replace_back_differs_where_the_replacement_meets_its_like() {
    let there = slice_replace(b"abx", b"x", b"aba");
    assert_eq!(there, b"ababa");
    assert_eq!(slice_replace(&there, b"aba", b"x"), b"xba");

    let merged = slice_replace(b"b", b"a", b"b");
    assert_eq!(merged, b"b");
    assert_eq!(slice_replace(&merged, b"b", b"a"), b"a");
}

#[test]
fn replace_elements_that_are_tuples() {
    let haystack = [(1u8, true), (2, false), (1, true), (2, false), (3, true)];
    let result = slice_replace(&haystack, &[(1, true), (2, false)], &[(9, false)]);
    assert_eq!(result, vec![(9, false), (9, false), (3, true)]);
}
