//! Validation of signup form fields: display name, email and password.

use vstd::prelude::*;
use vstd::string::StrSliceExecFns;

use crate::text::chars_of;

verus! {

/// Whether the character counts as alphanumeric; a property of the
/// character alone.
pub uninterp spec fn is_unicode_alphanumeric(c: char) -> bool;

/// Relies on `char::is_alphanumeric`: a function of the character alone,
/// named by `is_unicode_alphanumeric`.
#[verifier::external_body]
fn char_is_alphanumeric(c: char) -> (r: bool)
    ensures
        r == is_unicode_alphanumeric(c),
{
    c.is_alphanumeric()
}

/// Whether the character counts as uppercase; a property of the character
/// alone.
pub uninterp spec fn is_unicode_uppercase(c: char) -> bool;

/// Relies on `char::is_uppercase`: a function of the character alone,
/// named by `is_unicode_uppercase`.
#[verifier::external_body]
fn char_is_uppercase(c: char) -> (r: bool)
    ensures
        r == is_unicode_uppercase(c),
{
    c.is_uppercase()
}

/// Whether the character counts as lowercase; a property of the character
/// alone.
pub uninterp spec fn is_unicode_lowercase(c: char) -> bool;

/// Relies on `char::is_lowercase`: a function of the character alone,
/// named by `is_unicode_lowercase`.
#[verifier::external_body]
fn char_is_lowercase(c: char) -> (r: bool)
    ensures
        r == is_unicode_lowercase(c),
{
    c.is_lowercase()
}

/// Whether the character is a decimal digit.
pub open spec fn is_digit_char(c: char) -> bool {
    48 <= c as u32 <= 57
}

/// Whether the character is a decimal digit.
fn char_is_digit(c: char) -> (r: bool)
    ensures
        r == is_digit_char(c),
{
    let u = c as u32;
    48 <= u && u <= 57
}

/// Position `k` holds the one and only at-sign of the string.
pub open spec fn only_at(s: Seq<char>, k: int) -> bool {
    &&& 0 <= k < s.len()
    &&& s[k] == '@'
    &&& forall|j: int| 0 <= j < s.len() && j != k ==> (#[trigger] s[j]) != '@'
}

/// A character the local part of an email may hold.
pub open spec fn local_char_ok(c: char) -> bool {
    is_unicode_alphanumeric(c) || c == '.' || c == '_' || c == '-' || c == '+'
}

/// A character a domain label may hold.
pub open spec fn label_char_ok(c: char) -> bool {
    is_unicode_alphanumeric(c) || c == '-'
}

/// Some dot falls within the 64-character window starting at `a`: no
/// domain label may span such a window whole.
pub open spec fn dot_in_window(s: Seq<char>, a: int) -> bool {
    exists|j: int| a <= j <= a + 63 && (#[trigger] s[j]) == '.'
}

/// The local part before the at-sign at `k` is well-formed: nonempty, at
/// most 64 characters, every character allowed.
pub open spec fn local_ok(s: Seq<char>, k: int) -> bool {
    &&& 1 <= k <= 64
    &&& forall|i: int| 0 <= i < k ==> local_char_ok(#[trigger] s[i])
}

/// The domain after the at-sign at `k` is well-formed: nonempty, at most
/// 255 characters, two or more dot-separated labels, each label nonempty,
/// at most 63 characters, of allowed characters, neither starting nor
/// ending with a hyphen.
pub open spec fn domain_ok(s: Seq<char>, k: int) -> bool {
    let n = s.len() as int;
    &&& k + 1 < n
    &&& n - k - 1 <= 255
    &&& exists|i: int| k < i < n && (#[trigger] s[i]) == '.'
    &&& forall|i: int| k < i < n ==> ((#[trigger] s[i]) == '.' || label_char_ok(s[i]))
    &&& s[k + 1] != '.'
    &&& s[n - 1] != '.'
    &&& forall|i: int| k < i < n - 1 ==> !((#[trigger] s[i]) == '.' && s[i + 1] == '.')
    &&& forall|a: int| k < a && a + 63 < n ==> #[trigger] dot_in_window(s, a)
    &&& s[k + 1] != '-'
    &&& forall|i: int| k < i < n - 1 ==> ((#[trigger] s[i]) == '.' ==> s[i + 1] != '-')
    &&& s[n - 1] != '-'
    &&& forall|i: int| k + 1 < i < n ==> ((#[trigger] s[i]) == '.' ==> s[i - 1] != '-')
}

/// A well-formed email: exactly one at-sign, splitting a well-formed
/// local part from a well-formed domain.
pub open spec fn email_ok(s: Seq<char>) -> bool {
    exists|k: int| #[trigger] only_at(s, k) && local_ok(s, k) && domain_ok(s, k)
}

/// Why an email address was rejected.
#[derive(Clone, Copy, PartialEq, Eq, Structural, Debug)]
pub enum EmailError {
    /// The address is empty.
    Empty,
    /// Not exactly one at-sign.
    NotOneAt,
    /// The local part is empty.
    LocalEmpty,
    /// The local part exceeds 64 characters.
    LocalTooLong,
    /// The local part holds the disallowed character.
    LocalBadChar(char),
    /// The domain is empty.
    DomainEmpty,
    /// The domain exceeds 255 characters.
    DomainTooLong,
    /// The domain holds no dot, so fewer than two labels.
    DomainNoDot,
    /// A domain label is empty.
    LabelEmpty,
    /// A domain label exceeds 63 characters.
    LabelTooLong,
    /// A domain label holds the disallowed character.
    LabelBadChar(char),
    /// A domain label starts with a hyphen.
    LabelStartsHyphen,
    /// A domain label ends with a hyphen.
    LabelEndsHyphen,
}

/// The position of the one at-sign, where exactly one exists.
pub open spec fn the_at(s: Seq<char>) -> int {
    choose|k: int| only_at(s, k)
}

/// The first disallowed character of the local part `s[i..k)`, scanning
/// forward, if any.
pub open spec fn first_bad_local_from(s: Seq<char>, i: int, k: int) -> Option<char>
    decreases k - i,
{
    if i < k {
        if !local_char_ok(s[i]) {
            Some(s[i])
        } else {
            first_bad_local_from(s, i + 1, k)
        }
    } else {
        None
    }
}

/// The first error of the domain scanned forward from position `i`, with
/// `label_len` characters of the current label already seen: at a dot, an
/// empty label or one ending in a hyphen; at another character, a
/// disallowed one, a hyphen opening a label, or the sixty-fourth of one
/// label; past the end, an empty last label or one ending in a hyphen.
pub open spec fn domain_error_from(s: Seq<char>, i: int, label_len: int) -> Option<EmailError>
    decreases s.len() - i,
{
    if i < s.len() {
        let c = s[i];
        if c == '.' {
            if label_len == 0 {
                Some(EmailError::LabelEmpty)
            } else if s[i - 1] == '-' {
                Some(EmailError::LabelEndsHyphen)
            } else {
                domain_error_from(s, i + 1, 0)
            }
        } else if !label_char_ok(c) {
            Some(EmailError::LabelBadChar(c))
        } else if label_len == 0 && c == '-' {
            Some(EmailError::LabelStartsHyphen)
        } else if label_len == 63 {
            Some(EmailError::LabelTooLong)
        } else {
            domain_error_from(s, i + 1, label_len + 1)
        }
    } else {
        if label_len == 0 {
            Some(EmailError::LabelEmpty)
        } else if s[s.len() - 1] == '-' {
            Some(EmailError::LabelEndsHyphen)
        } else {
            None
        }
    }
}

/// The verdict on an email address: the first failed rule, scanning
/// forward in check order — emptiness, the at-sign count, the local part
/// (emptiness, length, characters), then the domain (emptiness, length,
/// the dot, and the per-position label rules of [`domain_error_from`]).
pub open spec fn email_error_spec(s: Seq<char>) -> Option<EmailError> {
    let n = s.len() as int;
    if n == 0 {
        Some(EmailError::Empty)
    } else if !(exists|k: int| #[trigger] only_at(s, k)) {
        Some(EmailError::NotOneAt)
    } else {
        let k = the_at(s);
        if k == 0 {
            Some(EmailError::LocalEmpty)
        } else if k > 64 {
            Some(EmailError::LocalTooLong)
        } else if first_bad_local_from(s, 0, k) is Some {
            Some(EmailError::LocalBadChar(first_bad_local_from(s, 0, k)->0))
        } else if k + 1 == n {
            Some(EmailError::DomainEmpty)
        } else if n - k - 1 > 255 {
            Some(EmailError::DomainTooLong)
        } else if forall|i: int| k < i < n ==> (#[trigger] s[i]) != '.' {
            Some(EmailError::DomainNoDot)
        } else {
            domain_error_from(s, k + 1, 0)
        }
    }
}

/// What each rejection claims of the address; every reported error is
/// truthful in this sense.
pub open spec fn email_error_holds(s: Seq<char>, e: EmailError) -> bool {
    let n = s.len() as int;
    match e {
        EmailError::Empty => n == 0,
        EmailError::NotOneAt => !(exists|k: int| #[trigger] only_at(s, k)),
        EmailError::LocalEmpty => only_at(s, 0),
        EmailError::LocalTooLong => exists|k: int| #[trigger] only_at(s, k) && k > 64,
        EmailError::LocalBadChar(c) => !local_char_ok(c) && exists|k: int|
            #[trigger] only_at(s, k) && (exists|i: int| 0 <= i < k && (#[trigger] s[i]) == c),
        EmailError::DomainEmpty => only_at(s, n - 1),
        EmailError::DomainTooLong => exists|k: int| #[trigger] only_at(s, k) && n - k - 1 > 255,
        EmailError::DomainNoDot => exists|k: int|
            #[trigger] only_at(s, k) && k + 1 < n && (forall|i: int|
                k < i < n ==> (#[trigger] s[i]) != '.'),
        EmailError::LabelEmpty => exists|k: int|
            #[trigger] only_at(s, k) && k + 1 < n && (s[k + 1] == '.' || s[n - 1] == '.' || (
            exists|i: int| k < i < n - 1 && (#[trigger] s[i]) == '.' && s[i + 1] == '.')),
        EmailError::LabelTooLong => exists|k: int|
            #[trigger] only_at(s, k) && (exists|a: int|
                k < a && a + 63 < n && !(#[trigger] dot_in_window(s, a))),
        EmailError::LabelBadChar(c) => !label_char_ok(c) && c != '.' && exists|k: int|
            #[trigger] only_at(s, k) && (exists|i: int| k < i < n && (#[trigger] s[i]) == c),
        EmailError::LabelStartsHyphen => exists|k: int|
            #[trigger] only_at(s, k) && (exists|i: int|
                k < i < n && (#[trigger] s[i]) == '-' && (i == k + 1 || s[i - 1] == '.')),
        EmailError::LabelEndsHyphen => exists|k: int|
            #[trigger] only_at(s, k) && (exists|i: int|
                k < i < n && (#[trigger] s[i]) == '-' && (i == n - 1 || s[i + 1] == '.')),
    }
}

/// Index of the first occurrence of `c` at or after `from`.
fn find_char(v: &Vec<char>, from: usize, c: char) -> (r: Option<usize>)
    requires
        from <= v@.len(),
    ensures
        r matches Some(i) ==> from <= i < v@.len() && v@[i as int] == c && (forall|j: int|
            from <= j < i ==> (#[trigger] v@[j]) != c),
        r is None ==> forall|j: int| from <= j < v@.len() ==> (#[trigger] v@[j]) != c,
{
    let n = v.len();
    let mut i = from;
    while i < n
        invariant
            from <= i <= n,
            n == v@.len(),
            forall|j: int| from <= j < i ==> (#[trigger] v@[j]) != c,
        decreases n - i,
    {
        if v[i] == c {
            return Some(i);
        }
        i = i + 1;
    }
    None
}

/// Rejects a malformed email address: `None` exactly for a well-formed
/// one, and every reported error is truthful, as [`email_error_holds`]
/// states it.
#[verifier::loop_isolation(false)]
pub fn validate_email(email: &str) -> (r: Option<EmailError>)
    ensures
        r == email_error_spec(email@),
        (r is None) == email_ok(email@),
        r matches Some(e) ==> email_error_holds(email@, e),
{
    let ghost s = email@;
    let cs = chars_of(email);
    let n = cs.len();
    if n == 0 {
        return Some(EmailError::Empty);
    }
    let k = match find_char(&cs, 0, '@') {
        None => {
            proof {
                assert forall|k2: int| !(#[trigger] only_at(s, k2)) by {
                    if 0 <= k2 < s.len() {
                        assert(s[k2] != '@');
                    }
                }
            }
            return Some(EmailError::NotOneAt);
        },
        Some(k) => k,
    };
    let second = find_char(&cs, k + 1, '@');
    if second.is_some() {
        proof {
            let k2 = second->0 as int;
            assert forall|k3: int| !(#[trigger] only_at(s, k3)) by {
                if only_at(s, k3) {
                    if k3 == k as int {
                        assert(s[k2] == '@');
                    } else {
                        assert(s[k as int] == '@');
                    }
                }
            }
        }
        return Some(EmailError::NotOneAt);
    }
    let ghost gk = k as int;
    proof {
        assert forall|j: int| 0 <= j < s.len() && j != gk implies (#[trigger] s[j]) != '@' by {
            if j < gk {
            } else {
                assert(s[j] != '@');
            }
        }
        assert(only_at(s, gk));
        assert forall|k2: int| #[trigger] only_at(s, k2) implies k2 == gk by {
            assert(s[k2] == '@');
        }
        assert(the_at(s) == gk) by {
            assert(exists|k2: int| only_at(s, k2));
            assert(only_at(s, the_at(s)));
        }
    }
    if k == 0 {
        return Some(EmailError::LocalEmpty);
    }
    if k > 64 {
        return Some(EmailError::LocalTooLong);
    }
    let mut i: usize = 0;
    while i < k
        invariant
            i <= k,
            forall|j: int| 0 <= j < i ==> local_char_ok(#[trigger] s[j]),
            first_bad_local_from(s, 0, gk) == first_bad_local_from(s, i as int, gk),
        decreases k - i,
    {
        let c = cs[i];
        let ok = char_is_alphanumeric(c) || c == '.' || c == '_' || c == '-' || c == '+';
        if !ok {
            proof {
                let gi = i as int;
                assert(s[gi] == c && !local_char_ok(c));
                assert(first_bad_local_from(s, gi, gk) == Some(c));
            }
            return Some(EmailError::LocalBadChar(c));
        }
        proof {
            let gi = i as int;
            assert(first_bad_local_from(s, gi, gk) == first_bad_local_from(s, gi + 1, gk));
        }
        i = i + 1;
    }
    proof {
        assert(first_bad_local_from(s, gk, gk) is None);
    }
    if k + 1 == n {
        proof {
            assert(gk == s.len() - 1);
        }
        return Some(EmailError::DomainEmpty);
    }
    if n - k - 1 > 255 {
        return Some(EmailError::DomainTooLong);
    }
    let d = match find_char(&cs, k + 1, '.') {
        None => {
            return Some(EmailError::DomainNoDot);
        },
        Some(d) => d,
    };
    proof {
        let gd = d as int;
        assert(!(forall|j: int| gk < j < s.len() ==> (#[trigger] s[j]) != '.')) by {
            assert(gk < gd < s.len() && s[gd] == '.');
        }
    }
    let mut label_len: usize = 0;
    let mut i: usize = k + 1;
    while i < n
        invariant
            k + 1 <= i <= n,
            label_len <= 63,
            domain_error_from(s, gk + 1, 0) == domain_error_from(s, i as int, label_len as int),
            label_len <= i - k - 1,
            forall|j: int| i - label_len <= j < i ==> (#[trigger] s[j]) != '.',
            i - label_len == gk + 1 || s[i - label_len - 1] == '.',
            i > k + 1 ==> s[gk + 1] != '.' && s[gk + 1] != '-',
            forall|j: int| gk < j < i ==> ((#[trigger] s[j]) == '.' || label_char_ok(s[j])),
            forall|j: int| gk < j && j + 1 < i ==> !((#[trigger] s[j]) == '.' && s[j + 1] == '.'),
            forall|j: int| gk < j && j + 1 < i ==> ((#[trigger] s[j]) == '.' ==> s[j + 1] != '-'),
            forall|j: int| gk + 1 < j < i ==> ((#[trigger] s[j]) == '.' ==> s[j - 1] != '-'),
            forall|a: int| gk < a && a + 63 < i ==> #[trigger] dot_in_window(s, a),
        decreases n - i,
    {
        let c = cs[i];
        let ghost gi = i as int;
        if c == '.' {
            if label_len == 0 {
                proof {
                    if gi > gk + 1 {
                        assert(s[gi - 1] == '.' && s[gi] == '.');
                    }
                    assert(domain_error_from(s, gi, 0) == Some(EmailError::LabelEmpty));
                }
                return Some(EmailError::LabelEmpty);
            }
            if cs[i - 1] == '-' {
                proof {
                    assert(s[gi - 1] == '-' && s[gi] == '.');
                    assert(gk < gi - 1);
                    assert(domain_error_from(s, gi, label_len as int) == Some(
                        EmailError::LabelEndsHyphen,
                    ));
                }
                return Some(EmailError::LabelEndsHyphen);
            }
            proof {
                assert(s[gi - 1] != '-');
                assert(domain_error_from(s, gi, label_len as int) == domain_error_from(
                    s,
                    gi + 1,
                    0,
                ));
            }
            label_len = 0;
        } else {
            let ok = char_is_alphanumeric(c) || c == '-';
            if !ok {
                proof {
                    assert(s[gi] == c && !label_char_ok(c) && c != '.');
                    assert(domain_error_from(s, gi, label_len as int) == Some(
                        EmailError::LabelBadChar(c),
                    ));
                }
                return Some(EmailError::LabelBadChar(c));
            }
            if label_len == 0 && c == '-' {
                proof {
                    assert(s[gi] == '-');
                    assert(gi == gk + 1 || s[gi - 1] == '.');
                    assert(domain_error_from(s, gi, 0) == Some(EmailError::LabelStartsHyphen));
                }
                return Some(EmailError::LabelStartsHyphen);
            }
            if label_len == 63 {
                proof {
                    let a = gi - 63;
                    assert(a == gi - label_len);
                    assert(gk < a);
                    assert(!dot_in_window(s, a)) by {
                        assert forall|j: int| a <= j <= a + 63 implies (#[trigger] s[j])
                            != '.' by {
                            if j < gi {
                            } else {
                                assert(s[gi] == c);
                            }
                        }
                    }
                    assert(domain_error_from(s, gi, label_len as int) == Some(
                        EmailError::LabelTooLong,
                    ));
                }
                return Some(EmailError::LabelTooLong);
            }
            proof {
                assert(s[gi] == c && label_char_ok(c));
                assert(!(label_len == 0 && c == '-'));
                assert(domain_error_from(s, gi, label_len as int) == domain_error_from(
                    s,
                    gi + 1,
                    label_len + 1,
                ));
            }
            label_len = label_len + 1;
        }
        proof {
            assert forall|a: int| gk < a && a + 63 < gi + 1 implies #[trigger] dot_in_window(
                s,
                a,
            ) by {
                if a + 63 == gi {
                    if s[gi] == '.' {
                        assert(a <= gi <= a + 63);
                    } else {
                        let start = gi + 1 - label_len as int;
                        assert(start - 1 >= gk + 1);
                        assert(a <= start - 1 <= a + 63);
                        assert(s[start - 1] == '.');
                    }
                }
            }
        }
        i = i + 1;
    }
    if label_len == 0 {
        proof {
            assert(s[n - 1] == '.');
            assert(domain_error_from(s, n as int, 0) == Some(EmailError::LabelEmpty));
        }
        return Some(EmailError::LabelEmpty);
    }
    if cs[n - 1] == '-' {
        proof {
            assert(s[n - 1] == '-');
            assert(domain_error_from(s, n as int, label_len as int) == Some(
                EmailError::LabelEndsHyphen,
            ));
        }
        return Some(EmailError::LabelEndsHyphen);
    }
    proof {
        assert(s[n - 1] != '.');
        assert(s[n - 1] != '-');
        assert(domain_error_from(s, n as int, label_len as int) is None);
        assert(local_ok(s, gk));
        assert(domain_ok(s, gk)) by {
            let gd = d as int;
            assert(gk < gd < s.len() && s[gd] == '.');
        }
        assert(email_ok(s));
    }
    None
}

/// Why a display name was rejected.
#[derive(Clone, Copy, PartialEq, Eq, Structural, Debug)]
pub enum NameError {
    /// Shorter than three characters.
    TooShort,
}

/// The verdict on a display name.
pub open spec fn name_error_spec(s: Seq<char>) -> Option<NameError> {
    if s.len() < 3 {
        Some(NameError::TooShort)
    } else {
        None
    }
}

/// Rejects a display name shorter than three characters.
pub fn validate_name(name: &str) -> (r: Option<NameError>)
    ensures
        r == name_error_spec(name@),
{
    if name.unicode_len() < 3 {
        Some(NameError::TooShort)
    } else {
        None
    }
}

/// Why a password was rejected: the first failed strength rule, in the
/// order the rules are checked.
#[derive(Clone, Copy, PartialEq, Eq, Structural, Debug)]
pub enum PasswordError {
    /// Shorter than eight characters.
    TooShort,
    /// No uppercase letter.
    NoUppercase,
    /// No lowercase letter.
    NoLowercase,
    /// No decimal digit.
    NoDigit,
    /// No special (non-alphanumeric) character.
    NoSpecial,
}

/// The verdict on a password: the rules in order — length, an uppercase
/// letter, a lowercase letter, a digit, a special character.
pub open spec fn password_error_spec(s: Seq<char>) -> Option<PasswordError> {
    if s.len() < 8 {
        Some(PasswordError::TooShort)
    } else if !(exists|i: int| 0 <= i < s.len() && is_unicode_uppercase(#[trigger] s[i])) {
        Some(PasswordError::NoUppercase)
    } else if !(exists|i: int| 0 <= i < s.len() && is_unicode_lowercase(#[trigger] s[i])) {
        Some(PasswordError::NoLowercase)
    } else if !(exists|i: int| 0 <= i < s.len() && is_digit_char(#[trigger] s[i])) {
        Some(PasswordError::NoDigit)
    } else if !(exists|i: int| 0 <= i < s.len() && !is_unicode_alphanumeric(#[trigger] s[i])) {
        Some(PasswordError::NoSpecial)
    } else {
        None
    }
}

/// Whether any character of the vector satisfies the rule picked by
/// `rule`: uppercase, lowercase, digit, or special, in that coding.
fn scan_any(v: &Vec<char>, rule: u8) -> (r: bool)
    requires
        rule < 4,
    ensures
        rule == 0 ==> r == exists|i: int|
            0 <= i < v@.len() && is_unicode_uppercase(#[trigger] v@[i]),
        rule == 1 ==> r == exists|i: int|
            0 <= i < v@.len() && is_unicode_lowercase(#[trigger] v@[i]),
        rule == 2 ==> r == exists|i: int| 0 <= i < v@.len() && is_digit_char(#[trigger] v@[i]),
        rule == 3 ==> r == exists|i: int|
            0 <= i < v@.len() && !is_unicode_alphanumeric(#[trigger] v@[i]),
{
    let n = v.len();
    for i in 0..n
        invariant
            n == v@.len(),
            rule == 0 ==> forall|j: int| 0 <= j < i ==> !is_unicode_uppercase(#[trigger] v@[j]),
            rule == 1 ==> forall|j: int| 0 <= j < i ==> !is_unicode_lowercase(#[trigger] v@[j]),
            rule == 2 ==> forall|j: int| 0 <= j < i ==> !is_digit_char(#[trigger] v@[j]),
            rule == 3 ==> forall|j: int| 0 <= j < i ==> is_unicode_alphanumeric(#[trigger] v@[j]),
    {
        let c = v[i];
        let hit = if rule == 0 {
            char_is_uppercase(c)
        } else if rule == 1 {
            char_is_lowercase(c)
        } else if rule == 2 {
            char_is_digit(c)
        } else {
            !char_is_alphanumeric(c)
        };
        if hit {
            return true;
        }
    }
    false
}

/// Rejects a weak password: it must have at least eight characters, an
/// uppercase letter, a lowercase letter, a digit and a special character,
/// reported in that order.
pub fn validate_password(password: &str) -> (r: Option<PasswordError>)
    ensures
        r == password_error_spec(password@),
{
    let cs = chars_of(password);
    if cs.len() < 8 {
        return Some(PasswordError::TooShort);
    }
    if !scan_any(&cs, 0) {
        return Some(PasswordError::NoUppercase);
    }
    if !scan_any(&cs, 1) {
        return Some(PasswordError::NoLowercase);
    }
    if !scan_any(&cs, 2) {
        return Some(PasswordError::NoDigit);
    }
    if !scan_any(&cs, 3) {
        return Some(PasswordError::NoSpecial);
    }
    None
}

} // verus!
