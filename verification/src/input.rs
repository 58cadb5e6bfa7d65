//! Reading what a user typed.

use crate::models::{child_view, Child, ChildView, ContentKind};
use crate::pattern::chars_of;
use vstd::prelude::*;
use vstd::string::StringExecFns;

verus! {

/// Whether `c` is one of the digits `0` to `9`.
pub open spec fn is_digit(c: char) -> bool {
    48 <= c as int <= 57
}

/// Whether `s` holds digits alone.
pub open spec fn all_digits(s: Seq<char>) -> bool {
    forall|i: int| 0 <= i < s.len() ==> is_digit(#[trigger] s[i])
}

/// The number that a run of decimal digits stands for.
pub open spec fn digits_value(s: Seq<char>) -> int
    decreases s.len(),
{
    if s.len() == 0 {
        0
    } else {
        digits_value(s.drop_last()) * 10 + (s.last() as int - 48)
    }
}

/// The number that `s` stands for in decimal notation: an optional sign
/// `+` or `-` and then one digit or more, and nothing else.
pub open spec fn decimal(s: Seq<char>) -> Option<int> {
    if s.len() > 0 && (s[0] == '-' || s[0] == '+') {
        let digits = s.skip(1);
        if digits.len() > 0 && all_digits(digits) {
            Some(
                if s[0] == '-' {
                    -digits_value(digits)
                } else {
                    digits_value(digits)
                },
            )
        } else {
            None
        }
    } else if s.len() > 0 && all_digits(s) {
        Some(digits_value(s))
    } else {
        None
    }
}

/// The identity that `s` stands for: the number that it is in decimal
/// notation if that is a 32-bit integer, else 0, which is no identity.
pub open spec fn id_of_text(s: Seq<char>) -> i32 {
    match decimal(s) {
        Some(v) => if i32::MIN <= v <= i32::MAX {
            v as i32
        } else {
            0
        },
        None => 0,
    }
}

proof fn lemma_digits_step(s: Seq<char>, i: int)
    requires
        0 <= i < s.len(),
        all_digits(s),
    ensures
        digits_value(s.take(i + 1)) == digits_value(s.take(i)) * 10 + (s[i] as int - 48),
        digits_value(s.take(i)) >= 0,
        digits_value(s.take(i + 1)) >= digits_value(s.take(i)),
    decreases i,
{
    assert(s.take(i + 1).drop_last() =~= s.take(i));
    assert(is_digit(s[i]));
    if i > 0 {
        lemma_digits_step(s, i - 1);
    } else {
        assert(s.take(0).len() == 0);
    }
}

/// Reads an identity that a user typed: the number that `text` is in
/// decimal notation if that is a 32-bit integer, else 0, which is no
/// identity.
pub fn parse_id(text: &str) -> (id: i32)
    ensures
        id == id_of_text(text@),
{
    let chars = chars_of(text);
    let n = chars.len();
    if n == 0 {
        return 0;
    }
    let negative = chars[0] == '-';
    let start: usize = if negative || chars[0] == '+' {
        1
    } else {
        0
    };
    if start == n {
        return 0;
    }
    let ghost digits = chars@.skip(start as int);
    proof {
        if start == 0 {
            assert(digits =~= text@);
        }
        assert(digits.take(0) =~= Seq::<char>::empty());
    }
    // The number read so far, as long as it is no more than 2^31.
    let mut value: i64 = 0;
    let mut too_large = false;
    let mut i: usize = start;
    while i < n
        invariant
            start <= i <= n,
            n == chars.len(),
            chars@ == text@,
            start == (if text@[0] == '-' || text@[0] == '+' {
                1usize
            } else {
                0usize
            }),
            digits == chars@.skip(start as int),
            all_digits(digits.take(i - start)),
            !too_large ==> 0 <= value <= 0x8000_0000 && value == digits_value(
                digits.take(i - start),
            ),
            too_large ==> digits_value(digits.take(i - start)) > 0x8000_0000,
        decreases n - i,
    {
        let c = chars[i];
        assert(c == digits[i - start]);
        if !('0' <= c && c <= '9') {
            proof {
                assert(!is_digit(digits[i - start]));
                assert(!all_digits(digits));
                if start == 0 {
                    assert(digits =~= text@);
                }
            }
            return 0;
        }
        proof {
            let upto = digits.take(i - start + 1);
            assert forall|k: int| 0 <= k < upto.len() implies is_digit(#[trigger] upto[k]) by {
                if k < i - start {
                    assert(is_digit(digits.take(i - start)[k]));
                }
            }
            assert(upto.take(i - start) =~= digits.take(i - start));
            lemma_digits_step(upto, i - start);
            assert(upto.take(i - start + 1) =~= upto);
        }
        if !too_large {
            value = value * 10 + (c as u8 - '0' as u8) as i64;
            if value > 0x8000_0000 {
                too_large = true;
            }
        }
        i += 1;
    }
    proof {
        assert(digits.take(n - start) =~= digits);
        assert(all_digits(digits));
        assert(decimal(text@) == Some(
            if negative {
                -digits_value(digits)
            } else {
                digits_value(digits)
            },
        ));
    }
    if too_large {
        0
    } else if negative {
        (-value) as i32
    } else if value > 0x7fff_ffff {
        0
    } else {
        value as i32
    }
}

/// The record that a user chose by typing `typed` when asked for a record
/// of the kind `kind`: the article or link whose identity the text stands
/// for, or the system entry whose key the text is; none where the text
/// stands for no identity or is empty.
pub open spec fn chosen_record(kind: ContentKind, typed: Seq<char>) -> Option<ChildView> {
    match kind {
        ContentKind::Article => if id_of_text(typed) != 0 {
            Some(ChildView::Article(id_of_text(typed)))
        } else {
            None
        },
        ContentKind::Link => if id_of_text(typed) != 0 {
            Some(ChildView::Link(id_of_text(typed)))
        } else {
            None
        },
        ContentKind::System => if typed.len() != 0 {
            Some(ChildView::System(typed))
        } else {
            None
        },
    }
}

/// Reads which record a user chose by typing `typed` when asked for a
/// record of the kind `kind`; `None` where nothing was chosen.
pub fn chosen(kind: ContentKind, typed: &str) -> (r: Option<Child>)
    ensures
        child_view(r) == chosen_record(kind, typed@),
{
    match kind {
        ContentKind::Article => {
            let id = parse_id(typed);
            if id != 0 {
                Some(Child::Article(id))
            } else {
                None
            }
        },
        ContentKind::Link => {
            let id = parse_id(typed);
            if id != 0 {
                Some(Child::Link(id))
            } else {
                None
            }
        },
        ContentKind::System => {
            if typed.is_empty() {
                None
            } else {
                Some(Child::System(String::from_str(typed)))
            }
        },
    }
}

/// The path of the file of settings below the directory `config_dir`.
pub fn settings_path(config_dir: &str) -> (path: String)
    ensures
        path@ == config_dir@ + "/N4/.env"@,
{
    String::from_str(config_dir).concat("/N4/.env")
}

} // verus!
