//! UTF-8 validity, enforced where a byte string is used as an object key.
//!
//! The spec follows the encoding's shortest-form rules: one-byte sequences
//! below `0x80`; two-byte sequences starting in `0xC2..=0xDF` (rejecting
//! the overlong starters `0xC0` and `0xC1`); three-byte sequences with the
//! restricted second-byte ranges after `0xE0` (overlong) and `0xED`
//! (surrogates); and four-byte sequences with the restricted ranges after
//! `0xF0` (overlong) and `0xF4` (beyond the last code point).

use vstd::prelude::*;
use crate::ast::Str;

verus! {

/// A continuation byte.
pub open spec fn is_cont(b: u8) -> bool {
    0x80 <= b <= 0xBF
}

/// Whether `s` is a well-formed UTF-8 byte sequence.
pub open spec fn is_utf8(s: Seq<u8>) -> bool
    decreases s.len(),
{
    if s.len() == 0 {
        true
    } else {
        let b0 = s[0];
        if b0 < 0x80 {
            is_utf8(s.skip(1))
        } else if 0xC2 <= b0 && b0 <= 0xDF {
            s.len() >= 2 && is_cont(s[1]) && is_utf8(s.skip(2))
        } else if b0 == 0xE0 {
            s.len() >= 3 && 0xA0 <= s[1] && s[1] <= 0xBF && is_cont(s[2]) && is_utf8(s.skip(3))
        } else if 0xE1 <= b0 && b0 <= 0xEC {
            s.len() >= 3 && is_cont(s[1]) && is_cont(s[2]) && is_utf8(s.skip(3))
        } else if b0 == 0xED {
            s.len() >= 3 && 0x80 <= s[1] && s[1] <= 0x9F && is_cont(s[2]) && is_utf8(s.skip(3))
        } else if 0xEE <= b0 && b0 <= 0xEF {
            s.len() >= 3 && is_cont(s[1]) && is_cont(s[2]) && is_utf8(s.skip(3))
        } else if b0 == 0xF0 {
            s.len() >= 4 && 0x90 <= s[1] && s[1] <= 0xBF && is_cont(s[2]) && is_cont(s[3])
                && is_utf8(s.skip(4))
        } else if 0xF1 <= b0 && b0 <= 0xF3 {
            s.len() >= 4 && is_cont(s[1]) && is_cont(s[2]) && is_cont(s[3]) && is_utf8(s.skip(4))
        } else if b0 == 0xF4 {
            s.len() >= 4 && 0x80 <= s[1] && s[1] <= 0x8F && is_cont(s[2]) && is_cont(s[3])
                && is_utf8(s.skip(4))
        } else {
            false
        }
    }
}

/// Decides whether `s` is well-formed UTF-8.
#[verifier::loop_isolation(false)]
pub fn check_utf8(s: &Str) -> (r: bool)
    ensures
        r == is_utf8(s@),
{
    let n = s.len();
    proof {
        assert(s@.skip(0) =~= s@);
    }
    let mut i: usize = 0;
    while i < n
        invariant
            i <= n,
            is_utf8(s@) == is_utf8(s@.skip(i as int)),
        decreases n - i,
    {
        let ghost t = s@.skip(i as int);
        let b0 = s[i];
        proof {
            assert(t[0] == s@[i as int]);
        }
        let width: usize;
        if b0 < 0x80 {
            width = 1;
        } else if 0xC2 <= b0 && b0 <= 0xDF {
            if n - i < 2 || !(0x80 <= s[i + 1] && s[i + 1] <= 0xBF) {
                proof {
                    if i + 1 < n {
                        assert(t[1] == s@[i as int + 1]);
                    }
                    assert(!is_utf8(t));
                }
                return false;
            }
            proof {
                assert(t[1] == s@[i as int + 1]);
            }
            width = 2;
        } else if b0 == 0xE0 {
            if n - i < 3 || !(0xA0 <= s[i + 1] && s[i + 1] <= 0xBF) || !(0x80 <= s[i + 2]
                && s[i + 2] <= 0xBF) {
                proof {
                    if i + 1 < n {
                        assert(t[1] == s@[i as int + 1]);
                    }
                    if i + 2 < n {
                        assert(t[2] == s@[i as int + 2]);
                    }
                    assert(!is_utf8(t));
                }
                return false;
            }
            proof {
                assert(t[1] == s@[i as int + 1]);
                assert(t[2] == s@[i as int + 2]);
            }
            width = 3;
        } else if 0xE1 <= b0 && b0 <= 0xEC {
            if n - i < 3 || !(0x80 <= s[i + 1] && s[i + 1] <= 0xBF) || !(0x80 <= s[i + 2]
                && s[i + 2] <= 0xBF) {
                proof {
                    if i + 1 < n {
                        assert(t[1] == s@[i as int + 1]);
                    }
                    if i + 2 < n {
                        assert(t[2] == s@[i as int + 2]);
                    }
                    assert(!is_utf8(t));
                }
                return false;
            }
            proof {
                assert(t[1] == s@[i as int + 1]);
                assert(t[2] == s@[i as int + 2]);
            }
            width = 3;
        } else if b0 == 0xED {
            if n - i < 3 || !(0x80 <= s[i + 1] && s[i + 1] <= 0x9F) || !(0x80 <= s[i + 2]
                && s[i + 2] <= 0xBF) {
                proof {
                    if i + 1 < n {
                        assert(t[1] == s@[i as int + 1]);
                    }
                    if i + 2 < n {
                        assert(t[2] == s@[i as int + 2]);
                    }
                    assert(!is_utf8(t));
                }
                return false;
            }
            proof {
                assert(t[1] == s@[i as int + 1]);
                assert(t[2] == s@[i as int + 2]);
            }
            width = 3;
        } else if 0xEE <= b0 && b0 <= 0xEF {
            if n - i < 3 || !(0x80 <= s[i + 1] && s[i + 1] <= 0xBF) || !(0x80 <= s[i + 2]
                && s[i + 2] <= 0xBF) {
                proof {
                    if i + 1 < n {
                        assert(t[1] == s@[i as int + 1]);
                    }
                    if i + 2 < n {
                        assert(t[2] == s@[i as int + 2]);
                    }
                    assert(!is_utf8(t));
                }
                return false;
            }
            proof {
                assert(t[1] == s@[i as int + 1]);
                assert(t[2] == s@[i as int + 2]);
            }
            width = 3;
        } else if b0 == 0xF0 {
            if n - i < 4 || !(0x90 <= s[i + 1] && s[i + 1] <= 0xBF) || !(0x80 <= s[i + 2]
                && s[i + 2] <= 0xBF) || !(0x80 <= s[i + 3] && s[i + 3] <= 0xBF) {
                proof {
                    if i + 1 < n {
                        assert(t[1] == s@[i as int + 1]);
                    }
                    if i + 2 < n {
                        assert(t[2] == s@[i as int + 2]);
                    }
                    if i + 3 < n {
                        assert(t[3] == s@[i as int + 3]);
                    }
                    assert(!is_utf8(t));
                }
                return false;
            }
            proof {
                assert(t[1] == s@[i as int + 1]);
                assert(t[2] == s@[i as int + 2]);
                assert(t[3] == s@[i as int + 3]);
            }
            width = 4;
        } else if 0xF1 <= b0 && b0 <= 0xF3 {
            if n - i < 4 || !(0x80 <= s[i + 1] && s[i + 1] <= 0xBF) || !(0x80 <= s[i + 2]
                && s[i + 2] <= 0xBF) || !(0x80 <= s[i + 3] && s[i + 3] <= 0xBF) {
                proof {
                    if i + 1 < n {
                        assert(t[1] == s@[i as int + 1]);
                    }
                    if i + 2 < n {
                        assert(t[2] == s@[i as int + 2]);
                    }
                    if i + 3 < n {
                        assert(t[3] == s@[i as int + 3]);
                    }
                    assert(!is_utf8(t));
                }
                return false;
            }
            proof {
                assert(t[1] == s@[i as int + 1]);
                assert(t[2] == s@[i as int + 2]);
                assert(t[3] == s@[i as int + 3]);
            }
            width = 4;
        } else if b0 == 0xF4 {
            if n - i < 4 || !(0x80 <= s[i + 1] && s[i + 1] <= 0x8F) || !(0x80 <= s[i + 2]
                && s[i + 2] <= 0xBF) || !(0x80 <= s[i + 3] && s[i + 3] <= 0xBF) {
                proof {
                    if i + 1 < n {
                        assert(t[1] == s@[i as int + 1]);
                    }
                    if i + 2 < n {
                        assert(t[2] == s@[i as int + 2]);
                    }
                    if i + 3 < n {
                        assert(t[3] == s@[i as int + 3]);
                    }
                    assert(!is_utf8(t));
                }
                return false;
            }
            proof {
                assert(t[1] == s@[i as int + 1]);
                assert(t[2] == s@[i as int + 2]);
                assert(t[3] == s@[i as int + 3]);
            }
            width = 4;
        } else {
            proof {
                assert(!is_utf8(t));
            }
            return false;
        }
        proof {
            assert(t.skip(width as int) =~= s@.skip(i as int + width as int));
            assert(is_utf8(t) == is_utf8(s@.skip(i as int + width as int)));
        }
        i = i + width;
    }
    proof {
        assert(s@.skip(n as int) =~= Seq::<u8>::empty());
    }
    true
}

} // verus!
