use vstd::prelude::*;

verus! {

/// What `str::trim` returns for a string.
pub uninterp spec fn trim_of(s: Seq<char>) -> Seq<char>;

/// What `str::to_lowercase` returns for a string.
pub uninterp spec fn lower_of(s: Seq<char>) -> Seq<char>;

/// Relies on `str::trim`: the result depends on the characters alone.
#[verifier::external_body]
fn trim(s: &str) -> (r: &str)
    ensures
        r@ == trim_of(s@),
{
    s.trim()
}

/// Relies on `str::to_lowercase`: the result depends on the characters alone.
#[verifier::external_body]
fn to_lowercase(s: &str) -> (r: String)
    ensures
        r@ == lower_of(s@),
{
    s.to_lowercase()
}

/// The connection option that announces a protocol upgrade.
pub open spec fn upgrade_word() -> Seq<char> {
    seq!['u', 'p', 'g', 'r', 'a', 'd', 'e']
}

/// `s[i..j]` is one of the comma-separated fields of `s`.
pub open spec fn is_field(s: Seq<char>, i: int, j: int) -> bool {
    &&& 0 <= i <= j <= s.len()
    &&& (i == 0 || s[i - 1] == ',')
    &&& (j == s.len() || s[j] == ',')
    &&& forall|m: int| i <= m < j ==> s[m] != ','
}

/// The field `s[i..j]`, trimmed and lower-cased, is the upgrade option.
pub open spec fn is_upgrade_field(s: Seq<char>, i: int, j: int) -> bool {
    is_field(s, i, j) && lower_of(trim_of(s.subrange(i, j))) == upgrade_word()
}

/// A `Connection` header value lists the upgrade option among its
/// comma-separated fields, ignoring surrounding space and case.
pub open spec fn lists_upgrade(s: Seq<char>) -> bool {
    exists|i: int, j: int| is_upgrade_field(s, i, j)
}

/// The protocol an exchange offers to switch to: the `Upgrade` header value
/// when the `Connection` header lists the upgrade option, else nothing.
pub open spec fn offered_protocol(
    connection: Option<Seq<char>>,
    upgrade: Option<Seq<char>>,
) -> Option<Seq<char>> {
    match connection {
        Some(c) => if lists_upgrade(c) {
            upgrade
        } else {
            None
        },
        None => None,
    }
}

/// The view of an optional string slice.
pub open spec fn opt_view(s: Option<&str>) -> Option<Seq<char>> {
    match s {
        Some(v) => Some(v@),
        None => None,
    }
}

/// Whether an already trimmed and lower-cased field is the upgrade option.
pub fn is_upgrade_token(normalized: &str) -> (r: bool)
    ensures
        r == (normalized@ == upgrade_word()),
{
    let ghost w = upgrade_word();
    let n = normalized.unicode_len();
    if n != 7 {
        return false;
    }
    let expected = ['u', 'p', 'g', 'r', 'a', 'd', 'e'];
    let mut i: usize = 0;
    while i < 7
        invariant
            n == 7,
            normalized@.len() == 7,
            w == upgrade_word(),
            i <= 7,
            expected@ == w,
            forall|m: int| 0 <= m < i ==> normalized@[m] == w[m],
        decreases 7 - i,
    {
        if normalized.get_char(i) != expected[i] {
            return false;
        }
        i = i + 1;
    }
    assert(normalized@ =~= w);
    true
}

fn field_is_upgrade(connection: &str, start: usize, end: usize) -> (r: bool)
    requires
        start <= end <= connection@.len(),
    ensures
        r == (lower_of(trim_of(connection@.subrange(start as int, end as int))) == upgrade_word()),
{
    let field = connection.substring_char(start, end);
    let lowered = to_lowercase(trim(field));
    is_upgrade_token(lowered.as_str())
}

/// No field of `s` that ends before `k` is the upgrade option.
pub open spec fn none_before(s: Seq<char>, k: int) -> bool {
    forall|a: int, b: int| 0 <= a <= b < k ==> !is_upgrade_field(s, a, b)
}

/// Whether a `Connection` header value lists the upgrade option.
pub fn connection_lists_upgrade(connection: &str) -> (r: bool)
    ensures
        r == lists_upgrade(connection@),
{
    let ghost s = connection@;
    let n = connection.unicode_len();
    let mut start: usize = 0;
    let mut j: usize = 0;
    while j < n
        invariant
            s == connection@,
            n == s.len(),
            start <= j <= n,
            start == 0 || s[start - 1] == ',',
            forall|m: int| start <= m < j ==> s[m] != ',',
            none_before(s, start as int),
        decreases n - j,
    {
        if connection.get_char(j) == ',' {
            if field_is_upgrade(connection, start, j) {
                assert(is_upgrade_field(s, start as int, j as int));
                return true;
            }
            assert forall|a: int, b: int| 0 <= a <= b <= j implies !is_upgrade_field(s, a, b) by {
                if is_field(s, a, b) && b >= start {
                    if b < j {
                        assert(s[b] != ',');
                    } else if a < start {
                        assert(s[start - 1] == ',');
                    } else if a > start {
                        assert(s[a - 1] == ',');
                    }
                }
            }
            start = j + 1;
        }
        j = j + 1;
    }
    if field_is_upgrade(connection, start, n) {
        assert(is_upgrade_field(s, start as int, n as int));
        return true;
    }
    assert forall|a: int, b: int| is_upgrade_field(s, a, b) implies false by {
        if b >= start {
            if b < n {
                assert(s[b] != ',');
            } else if a < start {
                assert(s[start - 1] == ',');
            } else if a > start {
                assert(s[a - 1] == ',');
            }
        }
    }
    false
}

/// The protocol that a request or response offers to switch to, read from
/// its `Connection` and `Upgrade` header values.
pub fn upgrade_type(connection: Option<&str>, upgrade: Option<&str>) -> (r: Option<String>)
    ensures
        opt_string_view(&r) == offered_protocol(opt_view(connection), opt_view(upgrade)),
{
    match connection {
        Some(c) => {
            if connection_lists_upgrade(c) {
                match upgrade {
                    Some(u) => Some(String::from_str(u)),
                    None => None,
                }
            } else {
                None
            }
        },
        None => None,
    }
}

/// The view of an optional owned string.
pub open spec fn opt_string_view(s: &Option<String>) -> Option<Seq<char>> {
    match s {
        Some(v) => Some(v@),
        None => None,
    }
}

} // verus!
