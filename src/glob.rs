use vstd::prelude::*;

verus! {

#[derive(Clone, Copy, PartialEq, Eq, Structural, Debug)]
pub struct InvalidGlobError;

/// One element of a glob pattern.
#[derive(Clone, Copy, PartialEq, Eq, Structural, Debug)]
pub enum SubPattern {
    End,
    Byte(u8),
    AnyByte,
    AnySegment,
    AnyMultiSegment,
    Range(u8, u8),
    ExceptRange(u8, u8),
    BeginGroup,
}

/// The byte ranges `[a-b]` and `[!a-b]` read from `j`: the sub-pattern and the index after `]`.
pub open spec fn range_at(p: Seq<u8>, j: int, inverse: bool) -> Result<(SubPattern, int), InvalidGlobError> {
    if j + 3 < p.len() && p[j + 1] == 0x2du8 && p[j] <= p[j + 2] && p[j + 3] == 0x5du8 {
        if inverse {
            Ok((SubPattern::ExceptRange(p[j], p[j + 2]), j + 4))
        } else {
            Ok((SubPattern::Range(p[j], p[j + 2]), j + 4))
        }
    } else {
        Err(InvalidGlobError)
    }
}

/// The sub-pattern that starts at index `i` of pattern `p`, the index after it, and whether a
/// `{ }` group is open after it.
pub open spec fn subpattern_at(p: Seq<u8>, i: int, group: bool) -> Result<(SubPattern, int, bool), InvalidGlobError>
    decreases p.len() - i,
{
    if i < 0 || i >= p.len() {
        Ok((SubPattern::End, i, group))
    } else {
        let b = p[i];
        if b == 0x3fu8 {
            Ok((SubPattern::AnyByte, i + 1, group))
        } else if b == 0x2au8 {
            if i + 1 < p.len() && p[i + 1] == 0x2au8 {
                if i + 2 >= p.len() || p[i + 2] == 0x2fu8 {
                    Ok((SubPattern::AnyMultiSegment, i + 2, group))
                } else {
                    Err(InvalidGlobError)
                }
            } else {
                Ok((SubPattern::AnySegment, i + 1, group))
            }
        } else if b == 0x5bu8 {
            let inverse = i + 1 < p.len() && p[i + 1] == 0x21u8;
            let j = if inverse { i + 2 } else { i + 1 };
            match range_at(p, j, inverse) {
                Ok((sp, k)) => Ok((sp, k, group)),
                Err(e) => Err(e),
            }
        } else if b == 0x5du8 {
            Err(InvalidGlobError)
        } else if b == 0x7bu8 {
            Ok((SubPattern::BeginGroup, i + 1, true))
        } else if b == 0x7du8 {
            if group {
                subpattern_at(p, i + 1, false)
            } else {
                Err(InvalidGlobError)
            }
        } else if b == 0x2cu8 {
            if group {
                match crate::token::byte_index(p, i + 1, 0x7du8) {
                    Some(k) => if i < k <= p.len() {
                        subpattern_at(p, k, false)
                    } else {
                        Err(InvalidGlobError)
                    },
                    None => Err(InvalidGlobError),
                }
            } else {
                Err(InvalidGlobError)
            }
        } else {
            Ok((SubPattern::Byte(b), i + 1, group))
        }
    }
}

/// Reading state over a glob pattern.
pub struct State<'a> {
    pub pattern: &'a [u8],
    pub index: usize,
    pub inside_group: bool,
}

impl<'a> State<'a> {
    /// Reads the next sub-pattern; past the end it is `None`.
    pub fn next_subpattern(&mut self) -> (r: Result<SubPattern, InvalidGlobError>)
        requires
            old(self).index <= old(self).pattern@.len(),
        ensures
            final(self).pattern == old(self).pattern,
            match subpattern_at(old(self).pattern@, old(self).index as int, old(self).inside_group) {
                Ok((sp, i, g)) => r == Ok::<SubPattern, InvalidGlobError>(sp) && final(self).index == i
                    && final(self).inside_group == g,
                Err(_) => r is Err,
            },
            final(self).index <= final(self).pattern@.len(),
    {
        let p = self.pattern;
        let len = p.len();
        loop
            invariant
                self.pattern == p,
                p == old(self).pattern,
                len == p@.len(),
                self.index <= len,
                subpattern_at(p@, old(self).index as int, old(self).inside_group) == subpattern_at(
                    p@,
                    self.index as int,
                    self.inside_group,
                ),
            decreases len - self.index,
        {
            let i = self.index;
            if i >= len {
                return Ok(SubPattern::End);
            }
            let b = p[i];
            if b == 0x3fu8 {
                self.index = i + 1;
                return Ok(SubPattern::AnyByte);
            } else if b == 0x2au8 {
                if i + 1 < len && p[i + 1] == 0x2au8 {
                    self.index = i + 2;
                    if i + 2 >= len || p[i + 2] == 0x2fu8 {
                        return Ok(SubPattern::AnyMultiSegment);
                    }
                    return Err(InvalidGlobError);
                }
                self.index = i + 1;
                return Ok(SubPattern::AnySegment);
            } else if b == 0x5bu8 {
                let inverse = i + 1 < len && p[i + 1] == 0x21u8;
                let j = if inverse {
                    i + 2
                } else {
                    i + 1
                };
                if j < len && len - j > 3 && p[j + 1] == 0x2du8 && p[j] <= p[j + 2] && p[j + 3] == 0x5du8 {
                    self.index = j + 4;
                    if inverse {
                        return Ok(SubPattern::ExceptRange(p[j], p[j + 2]));
                    }
                    return Ok(SubPattern::Range(p[j], p[j + 2]));
                }
                return Err(InvalidGlobError);
            } else if b == 0x5du8 {
                return Err(InvalidGlobError);
            } else if b == 0x7bu8 {
                self.index = i + 1;
                self.inside_group = true;
                return Ok(SubPattern::BeginGroup);
            } else if b == 0x7du8 {
                if !self.inside_group {
                    return Err(InvalidGlobError);
                }
                self.index = i + 1;
                self.inside_group = false;
            } else if b == 0x2cu8 {
                if !self.inside_group {
                    return Err(InvalidGlobError);
                }
                let mut k = i + 1;
                while k < len && p[k] != 0x7du8
                    invariant
                        i < k <= len,
                        len == p@.len(),
                        crate::token::byte_index(p@, i + 1, 0x7du8) == crate::token::byte_index(
                            p@,
                            k as int,
                            0x7du8,
                        ),
                    decreases len - k,
                {
                    k = k + 1;
                }
                if k >= len {
                    return Err(InvalidGlobError);
                }
                proof {
                    crate::token::lemma_byte_index_bounds(p@, i + 1, 0x7du8);
                }
                self.index = k;
                self.inside_group = false;
            } else {
                self.index = i + 1;
                return Ok(SubPattern::Byte(b));
            }
        }
    }
}

/// How far a failed match may back off: nowhere, to the sub-pattern after a `*` (which does
/// not cross a path separator), or to the one after a `**/`; with the path index to retry from.
#[derive(Clone, Copy, PartialEq, Eq, Structural, Debug)]
pub enum SegmentState {
    Fixed,
    One(usize),
    Multiple(usize),
}

pub open spec fn is_separator(b: u8) -> bool {
    b == 0x2fu8
}

/// The work that matching is given: enough for every retry from every path position.
pub open spec fn glob_budget(pattern: Seq<u8>, path: Seq<u8>) -> nat {
    let n = (pattern.len() + 2) * (path.len() + 2);
    if n > u128::MAX {
        u128::MAX as nat
    } else {
        n as nat
    }
}

/// Matching `path` against `pattern` from a reading state: the pattern index `pi` (with `g`
/// telling whether a group is open), the path index `xi`, how to back off, and the pattern
/// index of the last `*`. Backing off moves to the next path index after the last `*`;
/// `steps` bounds the work.
pub open spec fn glob_from(
    pattern: Seq<u8>,
    path: Seq<u8>,
    pi: int,
    g: bool,
    xi: int,
    seg: SegmentState,
    retry: int,
    steps: nat,
) -> Result<bool, InvalidGlobError>
    decreases steps,
{
    if steps == 0 {
        Ok(false)
    } else {
        match subpattern_at(pattern, pi, g) {
            Err(e) => Err(e),
            Ok((sp, pi2, g2)) => {
                let byte_ok = 0 <= xi < path.len() && match sp {
                    SubPattern::Byte(b) => if b == 0x2fu8 {
                        is_separator(path[xi])
                    } else {
                        path[xi] == b
                    },
                    SubPattern::Range(a, b) => a <= path[xi] && path[xi] <= b,
                    SubPattern::ExceptRange(a, b) => path[xi] < a || b < path[xi],
                    _ => false,
                };
                let checks_byte = sp is Byte || sp is Range || sp is ExceptRange;
                let seg2 = if checks_byte && 0 <= xi < path.len() && is_separator(path[xi])
                    && seg is One {
                    SegmentState::Fixed
                } else {
                    seg
                };
                if sp is BeginGroup {
                    Err(InvalidGlobError)
                } else if sp is End && xi == path.len() {
                    Ok(true)
                } else if checks_byte && byte_ok {
                    glob_from(pattern, path, pi2, g2, xi + 1, seg2, retry, (steps - 1) as nat)
                } else if sp is AnyByte && 0 <= xi < path.len() {
                    glob_from(pattern, path, pi2, g2, xi + 1, seg, retry, (steps - 1) as nat)
                } else if sp is AnySegment {
                    glob_from(pattern, path, pi2, g2, xi, SegmentState::One((xi + 1) as usize), pi, (steps - 1) as nat)
                } else if sp is AnyMultiSegment {
                    glob_from(pattern, path, pi2, g2, xi, SegmentState::Multiple((xi + 1) as usize), pi, (steps - 1) as nat)
                } else {
                    match seg2 {
                        SegmentState::Fixed => Ok(false),
                        SegmentState::One(k) => if k > path.len() {
                            Ok(false)
                        } else {
                            glob_from(pattern, path, retry, g2, k as int, seg2, retry, (steps - 1) as nat)
                        },
                        SegmentState::Multiple(k) => if k > path.len() {
                            Ok(false)
                        } else {
                            glob_from(pattern, path, retry, g2, k as int, seg2, retry, (steps - 1) as nat)
                        },
                    }
                }
            },
        }
    }
}

/// Whether `path` matches the glob `pattern`; an invalid pattern matches nothing.
pub fn match_glob(pattern: &[u8], path: &[u8]) -> (r: bool)
    requires
        path@.len() < usize::MAX,
    ensures
        r == (glob_from(pattern@, path@, 0, false, 0, SegmentState::Fixed, 0, glob_budget(pattern@, path@))
            == Ok::<bool, InvalidGlobError>(true)),
{
    match match_glob_recursive(pattern, path, false) {
        Ok(matched) => matched,
        Err(_) => false,
    }
}

/// Matches `path` against `pattern`, failing on an invalid pattern.
pub fn match_glob_recursive(pattern: &[u8], path: &[u8], inside_group: bool) -> (r: Result<bool, InvalidGlobError>)
    requires
        path@.len() < usize::MAX,
    ensures
        r == glob_from(pattern@, path@, 0, inside_group, 0, SegmentState::Fixed, 0, glob_budget(pattern@, path@)),
{
    let mut state = State { pattern, index: 0, inside_group };
    let mut path_index: usize = 0;
    let mut segment_state = SegmentState::Fixed;
    let mut retry_pattern_index: usize = 0;
    let plen = pattern.len() as u64;
    let xlen = path.len() as u64;
    let a: u128 = (plen as u128) + 2;
    let b: u128 = (xlen as u128) + 2;
    let budget: u128 = match a.checked_mul(b) {
        Some(n) => n,
        None => u128::MAX,
    };
    let mut steps: u128 = budget;
    let ghost goal = glob_from(pattern@, path@, 0, inside_group, 0, SegmentState::Fixed, 0, glob_budget(pattern@, path@));
    proof {
        assert(steps == glob_budget(pattern@, path@));
    }
    loop
        invariant
            state.pattern == pattern,
            state.index <= pattern@.len(),
            retry_pattern_index <= pattern@.len(),
            path_index <= path@.len(),
            path@.len() < usize::MAX,
            goal == glob_from(pattern@, path@, 0, inside_group, 0, SegmentState::Fixed, 0, glob_budget(pattern@, path@)),
            goal == glob_from(
                pattern@,
                path@,
                state.index as int,
                state.inside_group,
                path_index as int,
                segment_state,
                retry_pattern_index as int,
                steps as nat,
            ),
        decreases steps,
    {
        if steps == 0 {
            return Ok(false);
        }
        let ghost before_group = state.inside_group;
        let last_state_index = state.index;
        let sp = match state.next_subpattern() {
            Ok(sp) => sp,
            Err(_) => {
                return Err(InvalidGlobError);
            },
        };
        steps = steps - 1;
        let in_path = path_index < path.len();
        let checks_byte = match sp {
            SubPattern::Byte(_) | SubPattern::Range(_, _) | SubPattern::ExceptRange(_, _) => true,
            _ => false,
        };
        let byte_ok = in_path && match sp {
            SubPattern::Byte(b) => if b == 0x2fu8 {
                path[path_index] == 0x2fu8
            } else {
                path[path_index] == b
            },
            SubPattern::Range(a, b) => a <= path[path_index] && path[path_index] <= b,
            SubPattern::ExceptRange(a, b) => path[path_index] < a || b < path[path_index],
            _ => false,
        };
        if checks_byte && in_path && path[path_index] == 0x2fu8 {
            if let SegmentState::One(_) = segment_state {
                segment_state = SegmentState::Fixed;
            }
        }
        match sp {
            SubPattern::BeginGroup => {
                return Err(InvalidGlobError);
            },
            SubPattern::End => {
                if path_index == path.len() {
                    return Ok(true);
                }
            },
            SubPattern::AnyByte => {
                if in_path {
                    path_index = path_index + 1;
                    continue;
                }
            },
            SubPattern::AnySegment => {
                retry_pattern_index = last_state_index;
                segment_state = SegmentState::One(path_index + 1);
                continue;
            },
            SubPattern::AnyMultiSegment => {
                retry_pattern_index = last_state_index;
                segment_state = SegmentState::Multiple(path_index + 1);
                continue;
            },
            _ => {
                if byte_ok {
                    path_index = path_index + 1;
                    continue;
                }
            },
        }
        match segment_state {
            SegmentState::Fixed => {
                return Ok(false);
            },
            SegmentState::One(i) | SegmentState::Multiple(i) => {
                if i > path.len() {
                    return Ok(false);
                }
                state.index = retry_pattern_index;
                path_index = i;
            },
        }
    }
}

} // verus!
