use pepper::glob::{match_glob, InvalidGlobError, State, SubPattern};

fn subpattern(pattern: &str) -> Result<SubPattern, InvalidGlobError> {
    let mut state = State { pattern: pattern.as_bytes(), index: 0, inside_group: false };
    state.next_subpattern()
}

#[test]
fn test_match() {
    assert!(match_glob(b"", b""));
    assert!(match_glob(b"abc", b"abc"));
    assert!(!match_glob(b"ab", b"abc"));
    assert!(match_glob(b"a?c", b"abc"));
    assert!(match_glob(b"a[A-Z]c", b"aBc"));
    assert!(!match_glob(b"a[A-Z]c", b"abc"));
    assert!(match_glob(b"a[!0-9]c", b"abc"));

    assert!(match_glob(b"a*c", b"ac"));
    assert!(match_glob(b"a*c", b"abc"));
    assert!(match_glob(b"a*c", b"abbbc"));
    assert!(match_glob(b"a*/c", b"a/c"));
    assert!(match_glob(b"a*/c", b"abbb/c"));
    assert!(match_glob(b"a*[0-9]/c", b"abbb5/c"));
    assert!(!match_glob(b"a*c", b"a/c"));

    assert!(!match_glob(b"a**c", b"ac"));
    assert!(!match_glob(b"a**c", b"a/c"));
    assert!(match_glob(b"a**/c", b"a/c"));
    assert!(match_glob(b"a**/c", b"a/b/c"));
    assert!(match_glob(b"a**/c", b"a/bbb/c"));
    assert!(match_glob(b"a**/c", b"aaa/b/c"));
}

#[test]
fn test_subpattern() {
    assert_eq!(Ok(SubPattern::End), subpattern(""));

    assert_eq!(Ok(SubPattern::Byte(b'a')), subpattern("a"));
    assert_eq!(Ok(SubPattern::Byte(b'z')), subpattern("z"));
    assert_eq!(Ok(SubPattern::Byte(b'A')), subpattern("A"));
    assert_eq!(Ok(SubPattern::Byte(b'Z')), subpattern("Z"));
    assert_eq!(Ok(SubPattern::Byte(b'0')), subpattern("0"));
    assert_eq!(Ok(SubPattern::Byte(b'9')), subpattern("9"));

    assert_eq!(Ok(SubPattern::AnyByte), subpattern("?"));
    assert_eq!(Ok(SubPattern::AnySegment), subpattern("*"));
    assert_eq!(Ok(SubPattern::AnyMultiSegment), subpattern("**"));

    assert_eq!(Ok(SubPattern::Range(b'a', b'z')), subpattern("[a-z]"));
    assert_eq!(Ok(SubPattern::Range(b'A', b'Z')), subpattern("[A-Z]"));
    assert_eq!(Ok(SubPattern::Range(b'0', b'9')), subpattern("[0-9]"));
    assert_eq!(Err(InvalidGlobError), subpattern("[a-z"));
    assert_eq!(Err(InvalidGlobError), subpattern("]"));
    assert_eq!(Err(InvalidGlobError), subpattern("[z-a]"));

    assert_eq!(Ok(SubPattern::ExceptRange(b'a', b'z')), subpattern("[!a-z]"));
    assert_eq!(Ok(SubPattern::ExceptRange(b'A', b'Z')), subpattern("[!A-Z]"));
    assert_eq!(Ok(SubPattern::ExceptRange(b'0', b'9')), subpattern("[!0-9]"));
    assert_eq!(Err(InvalidGlobError), subpattern("[!a-z"));
    assert_eq!(Err(InvalidGlobError), subpattern("[!]"));
    assert_eq!(Err(InvalidGlobError), subpattern("[!z-a]"));

    assert_eq!(Ok(SubPattern::BeginGroup), subpattern("{"));
    assert_eq!(Err(InvalidGlobError), subpattern("}"));
    assert_eq!(Err(InvalidGlobError), subpattern(","));
}

#[test]
fn glob_star_without_match_ends() {
    assert!(!match_glob(b"a*c", b"ab"));
    assert!(!match_glob(b"[a-", b"a"));
    assert!(match_glob(b"*", b""));
}
