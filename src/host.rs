use vstd::prelude::*;

verus! {

/// An ASCII decimal digit.
pub open spec fn is_digit(c: char) -> bool {
    '0' <= c && c <= '9'
}

/// An ASCII letter or digit.
pub open spec fn is_alnum(c: char) -> bool {
    is_digit(c) || ('a' <= c && c <= 'z') || ('A' <= c && c <= 'Z')
}

/// One or more labels, each followed by a dot. A label is made of ASCII
/// letters, digits and hyphens, and neither starts nor ends with a hyphen.
pub open spec fn is_label_chain(p: Seq<char>) -> bool {
    &&& p.len() > 0
    &&& p.last() == '.'
    &&& forall|i: int|
        0 <= i < p.len() ==> {
            &&& (is_alnum(#[trigger] p[i]) || p[i] == '-' || p[i] == '.')
            &&& (i == 0 || p[i - 1] == '.') ==> is_alnum(p[i])
            &&& p[i] == '.' ==> is_alnum(p[i - 1])
        }
}

/// One to three decimal digits: one group of a dotted quad.
pub open spec fn is_digit_group(g: Seq<char>) -> bool {
    &&& 1 <= g.len() <= 3
    &&& forall|i: int| 0 <= i < g.len() ==> is_digit(#[trigger] g[i])
}

/// Nothing, or a colon followed by one or more decimal digits.
pub open spec fn is_port_suffix(t: Seq<char>) -> bool {
    t.len() == 0 || (t.len() >= 2 && t[0] == ':' && forall|i: int|
        1 <= i < t.len() ==> is_digit(#[trigger] t[i]))
}

/// The literal domain that ends every routable host.
pub open spec fn nip_io() -> Seq<char> {
    seq!['n', 'i', 'p', '.', 'i', 'o']
}

/// `labels`, then the dotted quad `g1.g2.g3.g4.`, then `nip.io`, then `port`.
pub open spec fn compose_host(
    labels: Seq<char>,
    g1: Seq<char>,
    g2: Seq<char>,
    g3: Seq<char>,
    g4: Seq<char>,
    port: Seq<char>,
) -> Seq<char> {
    labels + g1 + seq!['.'] + g2 + seq!['.'] + g3 + seq!['.'] + g4 + seq!['.'] + nip_io() + port
}

/// `s` has the shape `<labels>.<ddd>.<ddd>.<ddd>.<ddd>.nip.io[:<port>]`.
pub open spec fn matches_host_pattern(s: Seq<char>) -> bool {
    exists|labels: Seq<char>, g1: Seq<char>, g2: Seq<char>, g3: Seq<char>, g4: Seq<char>, port: Seq<char>|
        {
            &&& is_label_chain(labels)
            &&& is_digit_group(g1)
            &&& is_digit_group(g2)
            &&& is_digit_group(g3)
            &&& is_digit_group(g4)
            &&& is_port_suffix(port)
            &&& s == #[trigger] compose_host(labels, g1, g2, g3, g4, port)
        }
}

/// Index of the first colon at or after `i`, or the length of `s` if none.
pub open spec fn colon_from(s: Seq<char>, i: int) -> int
    decreases s.len() - i,
{
    if i >= s.len() {
        s.len() as int
    } else if s[i] == ':' {
        i
    } else {
        colon_from(s, i + 1)
    }
}

/// Start of the longest run of digits that ends at `e`.
pub open spec fn digit_run_start(b: Seq<char>, e: int) -> int
    decreases e,
{
    if e > 0 && is_digit(b[e - 1]) {
        digit_run_start(b, e - 1)
    } else {
        e
    }
}

/// Reading `b` leftwards from `e`, the start of `n` dot-terminated digit
/// groups, if they are there.
pub open spec fn groups_start(b: Seq<char>, e: int, n: nat) -> Option<int>
    decreases n,
{
    if n == 0 {
        Some(e)
    } else if 0 < e <= b.len() && b[e - 1] == '.' {
        let d = digit_run_start(b, e - 1);
        if 1 <= e - 1 - d <= 3 {
            groups_start(b, d, (n - 1) as nat)
        } else {
            None
        }
    } else {
        None
    }
}

/// The label prefix of a routable host, including its final dot; `None` when
/// the host does not have the wildcard shape.
pub open spec fn host_prefix(s: Seq<char>) -> Option<Seq<char>> {
    let c = colon_from(s, 0);
    let h = s.subrange(0, c);
    if is_port_suffix(s.subrange(c, s.len() as int)) && h.len() >= 6 && h.subrange(
        h.len() - 6,
        h.len() as int,
    ) == nip_io() {
        match groups_start(h, h.len() - 6, 4) {
            Some(k) => if is_label_chain(h.subrange(0, k)) {
                Some(h.subrange(0, k))
            } else {
                None
            },
            None => None,
        }
    } else {
        None
    }
}

proof fn lemma_colon_from_bounds(s: Seq<char>, i: int)
    requires
        0 <= i <= s.len(),
    ensures
        i <= colon_from(s, i) <= s.len(),
        colon_from(s, i) < s.len() ==> s[colon_from(s, i)] == ':',
        forall|j: int| i <= j < colon_from(s, i) ==> s[j] != ':',
    decreases s.len() - i,
{
    if i < s.len() && s[i] != ':' {
        lemma_colon_from_bounds(s, i + 1);
    }
}

proof fn lemma_digit_run_start_bounds(b: Seq<char>, e: int)
    requires
        0 <= e <= b.len(),
    ensures
        0 <= digit_run_start(b, e) <= e,
        forall|j: int| digit_run_start(b, e) <= j < e ==> is_digit(b[j]),
        digit_run_start(b, e) > 0 ==> !is_digit(b[digit_run_start(b, e) - 1]),
    decreases e,
{
    if e > 0 && is_digit(b[e - 1]) {
        lemma_digit_run_start_bounds(b, e - 1);
    }
}

proof fn lemma_groups_start_bounds(b: Seq<char>, e: int, n: nat)
    requires
        0 <= e <= b.len(),
    ensures
        groups_start(b, e, n) matches Some(k) ==> 0 <= k <= e,
    decreases n,
{
    if n > 0 && 0 < e <= b.len() && b[e - 1] == '.' {
        let d = digit_run_start(b, e - 1);
        lemma_digit_run_start_bounds(b, e - 1);
        if 1 <= e - 1 - d <= 3 {
            lemma_groups_start_bounds(b, d, (n - 1) as nat);
        }
    }
}

fn colon_index(s: &str, n: usize) -> (c: usize)
    requires
        n == s@.len(),
    ensures
        c == colon_from(s@, 0),
{
    let mut i: usize = 0;
    while i < n
        invariant
            n == s@.len(),
            i <= n,
            colon_from(s@, i as int) == colon_from(s@, 0),
        decreases n - i,
    {
        if s.get_char(i) == ':' {
            return i;
        }
        i = i + 1;
    }
    i
}

fn is_port_suffix_at(s: &str, c: usize, n: usize) -> (r: bool)
    requires
        n == s@.len(),
        c <= n,
    ensures
        r == is_port_suffix(s@.subrange(c as int, n as int)),
{
    let ghost t = s@.subrange(c as int, n as int);
    if c == n {
        return true;
    }
    if n - c < 2 || s.get_char(c) != ':' {
        return false;
    }
    let mut i: usize = c + 1;
    while i < n
        invariant
            n == s@.len(),
            c < i <= n,
            t == s@.subrange(c as int, n as int),
            forall|j: int| 1 <= j < i - c ==> is_digit(#[trigger] t[j]),
        decreases n - i,
    {
        let ch = s.get_char(i);
        if !('0' <= ch && ch <= '9') {
            assert(!is_digit(t[i - c]));
            return false;
        }
        i = i + 1;
    }
    true
}

fn digit_run_start_at(s: &str, c: usize, e: usize) -> (d: usize)
    requires
        c <= s@.len(),
        e <= c,
    ensures
        d == digit_run_start(s@.subrange(0, c as int), e as int),
{
    let ghost h = s@.subrange(0, c as int);
    let mut d: usize = e;
    while d > 0
        invariant
            c <= s@.len(),
            d <= e <= c,
            h == s@.subrange(0, c as int),
            digit_run_start(h, d as int) == digit_run_start(h, e as int),
        decreases d,
    {
        let ch = s.get_char(d - 1);
        if !('0' <= ch && ch <= '9') {
            return d;
        }
        d = d - 1;
    }
    d
}

fn is_alnum_char(ch: char) -> (r: bool)
    ensures
        r == is_alnum(ch),
{
    ('0' <= ch && ch <= '9') || ('a' <= ch && ch <= 'z') || ('A' <= ch && ch <= 'Z')
}

fn groups_start_at(s: &str, c: usize, e: usize) -> (r: Option<usize>)
    requires
        c <= s@.len(),
        e <= c,
    ensures
        match r {
            Some(k) => groups_start(s@.subrange(0, c as int), e as int, 4) == Some(k as int),
            None => groups_start(s@.subrange(0, c as int), e as int, 4) is None,
        },
{
    let ghost h = s@.subrange(0, c as int);
    let mut cur: usize = e;
    let mut left: usize = 4;
    while left > 0
        invariant
            c <= s@.len(),
            cur <= c,
            left <= 4,
            h == s@.subrange(0, c as int),
            groups_start(h, cur as int, left as nat) == groups_start(h, e as int, 4),
        decreases left,
    {
        if cur == 0 || s.get_char(cur - 1) != '.' {
            return None;
        }
        let d = digit_run_start_at(s, c, cur - 1);
        proof {
            lemma_digit_run_start_bounds(h, cur - 1);
        }
        if !(1 <= cur - 1 - d && cur - 1 - d <= 3) {
            return None;
        }
        cur = d;
        left = left - 1;
    }
    Some(cur)
}

fn is_label_chain_at(s: &str, k: usize) -> (r: bool)
    requires
        k <= s@.len(),
    ensures
        r == is_label_chain(s@.subrange(0, k as int)),
{
    let ghost p = s@.subrange(0, k as int);
    if k == 0 || s.get_char(k - 1) != '.' {
        return false;
    }
    let mut prev: char = '.';
    let mut i: usize = 0;
    while i < k
        invariant
            k <= s@.len(),
            i <= k,
            p == s@.subrange(0, k as int),
            p.last() == '.',
            i == 0 ==> prev == '.',
            i > 0 ==> prev == p[i - 1],
            forall|j: int|
                0 <= j < i ==> {
                    &&& (is_alnum(#[trigger] p[j]) || p[j] == '-' || p[j] == '.')
                    &&& (j == 0 || p[j - 1] == '.') ==> is_alnum(p[j])
                    &&& p[j] == '.' ==> is_alnum(p[j - 1])
                },
        decreases k - i,
    {
        let ch = s.get_char(i);
        assert(p[i as int] == ch);
        let alnum = is_alnum_char(ch);
        if !(alnum || ch == '-' || ch == '.') {
            return false;
        }
        if prev == '.' && !alnum {
            return false;
        }
        if ch == '.' && !is_alnum_char(prev) {
            return false;
        }
        prev = ch;
        i = i + 1;
    }
    true
}

/// The label prefix of a wildcard host such as `foo.bar.10.0.0.1.nip.io:8080`
/// (here `foo.bar.`), or `None` when the host does not have that shape.
pub fn extract_domain(s: &str) -> (r: Option<String>)
    ensures
        match r {
            Some(p) => host_prefix(s@) == Some(p@),
            None => host_prefix(s@) is None,
        },
{
    let n = s.unicode_len();
    let c = colon_index(s, n);
    proof {
        lemma_colon_from_bounds(s@, 0);
    }
    let ghost h = s@.subrange(0, c as int);
    if !is_port_suffix_at(s, c, n) || c < 6 {
        return None;
    }
    let tail_ok = s.get_char(c - 6) == 'n' && s.get_char(c - 5) == 'i' && s.get_char(c - 4) == 'p'
        && s.get_char(c - 3) == '.' && s.get_char(c - 2) == 'i' && s.get_char(c - 1) == 'o';
    if !tail_ok {
        assert(h.subrange(c - 6, c as int) != nip_io()) by {
            if h.subrange(c - 6, c as int) == nip_io() {
                assert(h.subrange(c - 6, c as int)[0] == 'n');
                assert(h.subrange(c - 6, c as int)[1] == 'i');
                assert(h.subrange(c - 6, c as int)[2] == 'p');
                assert(h.subrange(c - 6, c as int)[3] == '.');
                assert(h.subrange(c - 6, c as int)[4] == 'i');
                assert(h.subrange(c - 6, c as int)[5] == 'o');
            }
        }
        return None;
    }
    assert(h.subrange(c - 6, c as int) =~= nip_io());
    match groups_start_at(s, c, c - 6) {
        None => None,
        Some(k) => {
            proof {
                lemma_groups_start_bounds(h, c - 6, 4);
            }
            assert(s@.subrange(0, k as int) =~= h.subrange(0, k as int));
            if is_label_chain_at(s, k) {
                Some(String::from_str(s.substring_char(0, k)))
            } else {
                None
            }
        },
    }
}

proof fn lemma_colon_from_at(s: Seq<char>, i: int, j: int)
    requires
        0 <= i <= j <= s.len(),
        forall|m: int| i <= m < j ==> s[m] != ':',
        j == s.len() || s[j] == ':',
    ensures
        colon_from(s, i) == j,
    decreases j - i,
{
    if i < j {
        lemma_colon_from_at(s, i + 1, j);
    }
}

proof fn lemma_digit_run_start_at(b: Seq<char>, e: int, d: int)
    requires
        0 <= d <= e <= b.len(),
        forall|m: int| d <= m < e ==> is_digit(b[m]),
        d == 0 || !is_digit(b[d - 1]),
    ensures
        digit_run_start(b, e) == d,
    decreases e - d,
{
    if d < e {
        lemma_digit_run_start_at(b, e - 1, d);
    }
}

/// Reading one dot-terminated digit group `g` leftwards, where `pre` stands
/// before it and does not end in a digit.
proof fn lemma_group_read(b: Seq<char>, e: int, pre: Seq<char>, g: Seq<char>, n: nat)
    requires
        0 <= e <= b.len(),
        b.subrange(0, e) == pre + g + seq!['.'],
        is_digit_group(g),
        pre.len() > 0,
        !is_digit(pre.last()),
    ensures
        groups_start(b, e, n + 1) == groups_start(b, pre.len() as int, n),
{
    let y = pre + g;
    let x = y + seq!['.'];
    assert(x.len() == e);
    assert(b[e - 1] == b.subrange(0, e)[e - 1]);
    assert(b[e - 1] == x[e - 1]);
    assert forall|m: int| pre.len() <= m < e - 1 implies is_digit(b[m]) by {
        assert(b[m] == b.subrange(0, e)[m]);
        assert(x[m] == y[m]);
        assert(y[m] == g[m - pre.len()]);
    }
    assert(b[pre.len() - 1] == b.subrange(0, e)[pre.len() - 1]);
    assert(x[pre.len() - 1] == y[pre.len() - 1]);
    lemma_digit_run_start_at(b, e - 1, pre.len() as int);
}

/// What one step of `groups_start` found.
proof fn lemma_group_found(b: Seq<char>, e: int, n: nat)
    requires
        0 <= e <= b.len(),
        groups_start(b, e, n + 1) is Some,
    ensures
        e > 0,
        b[e - 1] == '.',
        0 <= digit_run_start(b, e - 1) <= e - 1,
        is_digit_group(b.subrange(digit_run_start(b, e - 1), e - 1)),
        groups_start(b, digit_run_start(b, e - 1), n) == groups_start(b, e, n + 1),
        b.subrange(0, e) =~= b.subrange(0, digit_run_start(b, e - 1)) + b.subrange(
            digit_run_start(b, e - 1),
            e - 1,
        ) + seq!['.'],
{
    lemma_digit_run_start_bounds(b, e - 1);
    let d = digit_run_start(b, e - 1);
    let g = b.subrange(d, e - 1);
    assert forall|i: int| 0 <= i < g.len() implies is_digit(#[trigger] g[i]) by {
        assert(g[i] == b[d + i]);
    }
}

/// Every host of the wildcard shape, with or without a port, yields exactly
/// its dot-terminated label prefix.
pub proof fn lemma_wildcard_host_yields_labels(
    labels: Seq<char>,
    g1: Seq<char>,
    g2: Seq<char>,
    g3: Seq<char>,
    g4: Seq<char>,
    port: Seq<char>,
)
    requires
        is_label_chain(labels),
        is_digit_group(g1),
        is_digit_group(g2),
        is_digit_group(g3),
        is_digit_group(g4),
        is_port_suffix(port),
    ensures
        host_prefix(compose_host(labels, g1, g2, g3, g4, port)) == Some(labels),
{
    let dot = seq!['.'];
    let p1 = labels + g1 + dot;
    let p2 = p1 + g2 + dot;
    let p3 = p2 + g3 + dot;
    let p4 = p3 + g4 + dot;
    let h = p4 + nip_io();
    let s = compose_host(labels, g1, g2, g3, g4, port);
    assert(s == h + port);
    assert forall|m: int| 0 <= m < h.len() implies h[m] != ':' by {
        if m < labels.len() {
            assert(h[m] == labels[m]);
        } else if m < p1.len() {
            assert(h[m] == p1[m]);
            if m < labels.len() + g1.len() {
                assert(p1[m] == g1[m - labels.len()]);
            }
        } else if m < p2.len() {
            assert(h[m] == p2[m]);
            if m < p1.len() + g2.len() {
                assert(p2[m] == g2[m - p1.len()]);
            }
        } else if m < p3.len() {
            assert(h[m] == p3[m]);
            if m < p2.len() + g3.len() {
                assert(p3[m] == g3[m - p2.len()]);
            }
        } else if m < p4.len() {
            assert(h[m] == p4[m]);
            if m < p3.len() + g4.len() {
                assert(p4[m] == g4[m - p3.len()]);
            }
        } else {
            assert(h[m] == nip_io()[m - p4.len()]);
        }
    }
    assert forall|m: int| 0 <= m < h.len() implies s[m] != ':' by {
        assert(s[m] == h[m]);
    }
    if port.len() > 0 {
        assert(s[h.len() as int] == port[0]);
    }
    lemma_colon_from_at(s, 0, h.len() as int);
    assert(s.subrange(0, h.len() as int) =~= h);
    assert(s.subrange(h.len() as int, s.len() as int) =~= port);
    assert(h.subrange(h.len() - 6, h.len() as int) =~= nip_io());
    let e = h.len() - 6;
    assert(h.subrange(0, e) =~= p3 + g4 + dot);
    assert(p3.last() == '.');
    lemma_group_read(h, e, p3, g4, 3);
    assert(h.subrange(0, p3.len() as int) =~= p2 + g3 + dot);
    assert(p2.last() == '.');
    lemma_group_read(h, p3.len() as int, p2, g3, 2);
    assert(h.subrange(0, p2.len() as int) =~= p1 + g2 + dot);
    assert(p1.last() == '.');
    lemma_group_read(h, p2.len() as int, p1, g2, 1);
    assert(h.subrange(0, p1.len() as int) =~= labels + g1 + dot);
    lemma_group_read(h, p1.len() as int, labels, g1, 0);
    assert(h.subrange(0, labels.len() as int) =~= labels);
}

/// A host that does not have the wildcard shape (another suffix, no dotted
/// quad, an empty or malformed label, a port with a non-digit) yields no
/// prefix: any prefix comes from a decomposition of the host.
pub proof fn lemma_prefix_only_for_wildcard_hosts(s: Seq<char>)
    ensures
        host_prefix(s) is Some ==> matches_host_pattern(s),
{
    if host_prefix(s) is Some {
        let c = colon_from(s, 0);
        lemma_colon_from_bounds(s, 0);
        let h = s.subrange(0, c);
        let port = s.subrange(c, s.len() as int);
        let e = h.len() - 6;
        lemma_group_found(h, e, 3);
        let d1 = digit_run_start(h, e - 1);
        lemma_group_found(h, d1, 2);
        let d2 = digit_run_start(h, d1 - 1);
        lemma_group_found(h, d2, 1);
        let d3 = digit_run_start(h, d2 - 1);
        lemma_group_found(h, d3, 0);
        let k = digit_run_start(h, d3 - 1);
        let labels = h.subrange(0, k);
        let g1 = h.subrange(k, d3 - 1);
        let g2 = h.subrange(d3, d2 - 1);
        let g3 = h.subrange(d2, d1 - 1);
        let g4 = h.subrange(d1, e - 1);
        let dot = seq!['.'];
        assert(h =~= h.subrange(0, e) + nip_io());
        assert(s =~= h + port);
        assert(h.subrange(0, e) == h.subrange(0, d1) + g4 + dot);
        assert(h.subrange(0, d1) == h.subrange(0, d2) + g3 + dot);
        assert(h.subrange(0, d2) == h.subrange(0, d3) + g2 + dot);
        assert(h.subrange(0, d3) == labels + g1 + dot);
        assert(s == compose_host(labels, g1, g2, g3, g4, port));
    }
}

} // verus!
