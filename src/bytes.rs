use vstd::prelude::*;

verus! {

/// ASCII whitespace: tab, line feed, vertical tab, form feed, carriage return, space.
pub open spec fn is_ascii_space(b: u8) -> bool {
    b == 32 || (9 <= b && b <= 13)
}

/// `t` is the UTF-8 encoding of one whitespace character, as `char::is_whitespace` has
/// them: the ASCII ones, U+0085, U+00A0, U+1680, U+2000 to U+200A, U+2028, U+2029,
/// U+202F, U+205F and U+3000.
pub open spec fn is_space_char(t: Seq<u8>) -> bool {
    ||| t.len() == 1 && is_ascii_space(t[0])
    ||| t.len() == 2 && t[0] == 0xC2 && (t[1] == 0x85 || t[1] == 0xA0)
    ||| t.len() == 3 && t[0] == 0xE1 && t[1] == 0x9A && t[2] == 0x80
    ||| t.len() == 3 && t[0] == 0xE2 && t[1] == 0x80 && ((0x80 <= t[2] && t[2] <= 0x8A) || t[2]
        == 0xA8 || t[2] == 0xA9 || t[2] == 0xAF)
    ||| t.len() == 3 && t[0] == 0xE2 && t[1] == 0x81 && t[2] == 0x9F
    ||| t.len() == 3 && t[0] == 0xE3 && t[1] == 0x80 && t[2] == 0x80
}

/// The length of the whitespace character that `s` starts with; 0 when it starts with none.
pub open spec fn space_prefix(s: Seq<u8>) -> nat {
    if s.len() >= 1 && is_space_char(s.subrange(0, 1)) {
        1
    } else if s.len() >= 2 && is_space_char(s.subrange(0, 2)) {
        2
    } else if s.len() >= 3 && is_space_char(s.subrange(0, 3)) {
        3
    } else {
        0
    }
}

/// The length of the whitespace character that `s` ends with; 0 when it ends with none.
pub open spec fn space_suffix(s: Seq<u8>) -> nat {
    if s.len() >= 1 && is_space_char(s.subrange(s.len() - 1, s.len() as int)) {
        1
    } else if s.len() >= 2 && is_space_char(s.subrange(s.len() - 2, s.len() as int)) {
        2
    } else if s.len() >= 3 && is_space_char(s.subrange(s.len() - 3, s.len() as int)) {
        3
    } else {
        0
    }
}

/// What a trim removes at the start of `s`, one unit at a time: a `/` when `slash`,
/// a whitespace character otherwise.
pub open spec fn strip_prefix_len(s: Seq<u8>, slash: bool) -> nat {
    if slash {
        if s.len() > 0 && s[0] == 47 {
            1
        } else {
            0
        }
    } else {
        space_prefix(s)
    }
}

/// What a trim removes at the end of `s`, one unit at a time.
pub open spec fn strip_suffix_len(s: Seq<u8>, slash: bool) -> nat {
    if slash {
        if s.len() > 0 && s.last() == 47 {
            1
        } else {
            0
        }
    } else {
        space_suffix(s)
    }
}

/// The views of a sequence of byte vectors.
pub open spec fn views(v: Seq<Vec<u8>>) -> Seq<Seq<u8>> {
    v.map_values(|x: Vec<u8>| x@)
}

/// The pieces of `s` between occurrences of `sep`; always at least one piece.
pub open spec fn split_on(s: Seq<u8>, sep: u8) -> Seq<Seq<u8>>
    decreases s.len(),
{
    if s.len() == 0 {
        seq![Seq::<u8>::empty()]
    } else {
        let prev = split_on(s.drop_last(), sep);
        if s.last() == sep {
            prev.push(Seq::<u8>::empty())
        } else {
            prev.update(prev.len() - 1, prev.last().push(s.last()))
        }
    }
}

pub proof fn lemma_split_on_nonempty(s: Seq<u8>, sep: u8)
    ensures
        split_on(s, sep).len() >= 1,
    decreases s.len(),
{
    if s.len() > 0 {
        lemma_split_on_nonempty(s.drop_last(), sep);
    }
}

/// Number of bytes that a trim removes at the start of `s`.
pub open spec fn lead(s: Seq<u8>, slash: bool) -> nat
    decreases s.len(),
{
    let k = strip_prefix_len(s, slash);
    if k > 0 && k <= s.len() {
        k + lead(s.subrange(k as int, s.len() as int), slash)
    } else {
        0
    }
}

/// Number of bytes that a trim removes at the end of `s`.
pub open spec fn trail(s: Seq<u8>, slash: bool) -> nat
    decreases s.len(),
{
    let k = strip_suffix_len(s, slash);
    if k > 0 && k <= s.len() {
        k + trail(s.subrange(0, s.len() - k), slash)
    } else {
        0
    }
}

pub proof fn lemma_lead_bound(s: Seq<u8>, slash: bool)
    ensures
        lead(s, slash) <= s.len(),
    decreases s.len(),
{
    let k = strip_prefix_len(s, slash);
    if k > 0 && k <= s.len() {
        lemma_lead_bound(s.subrange(k as int, s.len() as int), slash);
    }
}

pub proof fn lemma_trail_bound(s: Seq<u8>, slash: bool)
    ensures
        trail(s, slash) <= s.len(),
    decreases s.len(),
{
    let k = strip_suffix_len(s, slash);
    if k > 0 && k <= s.len() {
        lemma_trail_bound(s.subrange(0, s.len() - k), slash);
    }
}

/// `s` without the units that a trim removes at its start and at its end.
pub open spec fn trim(s: Seq<u8>, slash: bool) -> Seq<u8> {
    let rest = s.subrange(lead(s, slash) as int, s.len() as int);
    rest.subrange(0, rest.len() - trail(rest, slash))
}

pub open spec fn trim_ws(s: Seq<u8>) -> Seq<u8> {
    trim(s, false)
}

pub open spec fn trim_slash(s: Seq<u8>) -> Seq<u8> {
    trim(s, true)
}

/// Whether the `len` bytes of `s` from `a` encode one whitespace character.
fn space_char_at(s: &[u8], a: usize, len: usize) -> (r: bool)
    requires
        1 <= len <= 3,
        a + len <= s@.len(),
    ensures
        r == is_space_char(s@.subrange(a as int, a + len)),
{
    let ghost t = s@.subrange(a as int, a + len);
    assert(t[0] == s@[a as int]);
    if len == 1 {
        let b = s[a];
        b == 32 || (9 <= b && b <= 13)
    } else if len == 2 {
        assert(t[1] == s@[a + 1]);
        s[a] == 0xC2 && (s[a + 1] == 0x85 || s[a + 1] == 0xA0)
    } else {
        assert(t[1] == s@[a + 1]);
        assert(t[2] == s@[a + 2]);
        let (b0, b1, b2) = (s[a], s[a + 1], s[a + 2]);
        (b0 == 0xE1 && b1 == 0x9A && b2 == 0x80) || (b0 == 0xE2 && b1 == 0x80 && ((0x80 <= b2
            && b2 <= 0x8A) || b2 == 0xA8 || b2 == 0xA9 || b2 == 0xAF)) || (b0 == 0xE2 && b1
            == 0x81 && b2 == 0x9F) || (b0 == 0xE3 && b1 == 0x80 && b2 == 0x80)
    }
}

/// The length of the unit a trim removes at position `i` of `s`, within `s[..hi]`.
fn strip_len_at(s: &[u8], i: usize, hi: usize, slash: bool) -> (k: usize)
    requires
        i <= hi <= s@.len(),
    ensures
        k == strip_prefix_len(s@.subrange(i as int, hi as int), slash),
        k <= hi - i,
{
    let ghost t = s@.subrange(i as int, hi as int);
    let n = hi - i;
    if slash {
        if n > 0 && s[i] == 47 {
            1
        } else {
            0
        }
    } else if n >= 1 && space_char_at(s, i, 1) {
        assert(t.subrange(0, 1) =~= s@.subrange(i as int, i + 1));
        1
    } else if n >= 2 && space_char_at(s, i, 2) {
        assert(t.subrange(0, 1) =~= s@.subrange(i as int, i + 1));
        assert(t.subrange(0, 2) =~= s@.subrange(i as int, i + 2));
        2
    } else if n >= 3 && space_char_at(s, i, 3) {
        assert(t.subrange(0, 1) =~= s@.subrange(i as int, i + 1));
        assert(t.subrange(0, 2) =~= s@.subrange(i as int, i + 2));
        assert(t.subrange(0, 3) =~= s@.subrange(i as int, i + 3));
        3
    } else {
        proof {
            if n >= 1 {
                assert(t.subrange(0, 1) =~= s@.subrange(i as int, i + 1));
            }
            if n >= 2 {
                assert(t.subrange(0, 2) =~= s@.subrange(i as int, i + 2));
            }
            if n >= 3 {
                assert(t.subrange(0, 3) =~= s@.subrange(i as int, i + 3));
            }
        }
        0
    }
}

/// The length of the unit a trim removes at the end of `s[lo..hi]`.
fn strip_len_before(s: &[u8], lo: usize, hi: usize, slash: bool) -> (k: usize)
    requires
        lo <= hi <= s@.len(),
    ensures
        k == strip_suffix_len(s@.subrange(lo as int, hi as int), slash),
        k <= hi - lo,
{
    let ghost t = s@.subrange(lo as int, hi as int);
    let n = hi - lo;
    if slash {
        if n > 0 && s[hi - 1] == 47 {
            1
        } else {
            0
        }
    } else if n >= 1 && space_char_at(s, hi - 1, 1) {
        assert(t.subrange(n - 1, n as int) =~= s@.subrange(hi - 1, hi as int));
        1
    } else if n >= 2 && space_char_at(s, hi - 2, 2) {
        assert(t.subrange(n - 1, n as int) =~= s@.subrange(hi - 1, hi as int));
        assert(t.subrange(n - 2, n as int) =~= s@.subrange(hi - 2, hi as int));
        2
    } else if n >= 3 && space_char_at(s, hi - 3, 3) {
        assert(t.subrange(n - 1, n as int) =~= s@.subrange(hi - 1, hi as int));
        assert(t.subrange(n - 2, n as int) =~= s@.subrange(hi - 2, hi as int));
        assert(t.subrange(n - 3, n as int) =~= s@.subrange(hi - 3, hi as int));
        3
    } else {
        proof {
            if n >= 1 {
                assert(t.subrange(n - 1, n as int) =~= s@.subrange(hi - 1, hi as int));
            }
            if n >= 2 {
                assert(t.subrange(n - 2, n as int) =~= s@.subrange(hi - 2, hi as int));
            }
            if n >= 3 {
                assert(t.subrange(n - 3, n as int) =~= s@.subrange(hi - 3, hi as int));
            }
        }
        0
    }
}

fn trim_by(s: &[u8], slash: bool) -> (r: Vec<u8>)
    ensures
        r@ == trim(s@, slash),
{
    let n = s.len();
    let mut lo: usize = 0;
    proof {
        lemma_lead_bound(s@, slash);
        assert(s@.subrange(0, n as int) =~= s@);
    }
    let mut k = strip_len_at(s, 0, n, slash);
    while k > 0
        invariant
            0 <= lo <= n,
            n == s@.len(),
            k == strip_prefix_len(s@.subrange(lo as int, n as int), slash),
            k <= n - lo,
            lead(s@, slash) == lo + lead(s@.subrange(lo as int, n as int), slash),
        decreases n - lo,
    {
        proof {
            assert(s@.subrange(lo as int, n as int).subrange(k as int, n - lo) =~= s@.subrange(
                lo + k,
                n as int,
            ));
        }
        lo += k;
        k = strip_len_at(s, lo, n, slash);
    }
    let ghost rest = s@.subrange(lo as int, n as int);
    assert(lead(s@, slash) == lo);
    let mut hi: usize = n;
    proof {
        lemma_trail_bound(rest, slash);
        assert(rest.subrange(0, rest.len() as int) =~= rest);
    }
    let mut k = strip_len_before(s, lo, n, slash);
    while k > 0
        invariant
            lo <= hi <= n,
            n == s@.len(),
            rest == s@.subrange(lo as int, n as int),
            k == strip_suffix_len(s@.subrange(lo as int, hi as int), slash),
            k <= hi - lo,
            trail(rest, slash) == (n - hi) + trail(rest.subrange(0, hi - lo), slash),
        decreases hi,
    {
        proof {
            assert(rest.subrange(0, hi - lo) =~= s@.subrange(lo as int, hi as int));
            assert(rest.subrange(0, hi - lo).subrange(0, hi - lo - k) =~= rest.subrange(
                0,
                hi - k - lo,
            ));
        }
        hi -= k;
        k = strip_len_before(s, lo, hi, slash);
    }
    assert(rest.subrange(0, hi - lo) =~= s@.subrange(lo as int, hi as int));
    let r = copy_range(s, lo, hi);
    assert(r@ =~= rest.subrange(0, rest.len() - trail(rest, slash)));
    r
}

/// Copies the bytes of `s` from `lo` up to `hi`.
pub fn copy_range(s: &[u8], lo: usize, hi: usize) -> (r: Vec<u8>)
    requires
        lo <= hi <= s@.len(),
    ensures
        r@ == s@.subrange(lo as int, hi as int),
{
    let mut r: Vec<u8> = Vec::new();
    let mut k: usize = lo;
    while k < hi
        invariant
            lo <= k <= hi <= s@.len(),
            r@ =~= s@.subrange(lo as int, k as int),
        decreases hi - k,
    {
        r.push(s[k]);
        k += 1;
    }
    r
}

/// Byte-for-byte equality.
pub fn bytes_eq(a: &[u8], b: &[u8]) -> (r: bool)
    ensures
        r == (a@ == b@),
{
    if a.len() != b.len() {
        return false;
    }
    let mut i: usize = 0;
    while i < a.len()
        invariant
            0 <= i <= a@.len(),
            a@.len() == b@.len(),
            forall|j: int| 0 <= j < i ==> a@[j] == b@[j],
        decreases a@.len() - i,
    {
        if a[i] != b[i] {
            return false;
        }
        i += 1;
    }
    assert(a@ =~= b@);
    true
}

/// Copies `s` without leading and trailing whitespace characters.
pub fn trim_spaces(s: &[u8]) -> (r: Vec<u8>)
    ensures
        r@ == trim_ws(s@),
{
    trim_by(s, false)
}

/// Copies `s` without leading and trailing `/` bytes.
pub fn trim_slashes(s: &[u8]) -> (r: Vec<u8>)
    ensures
        r@ == trim_slash(s@),
{
    trim_by(s, true)
}

/// Splits `s` at every occurrence of `sep`, keeping empty pieces.
pub fn split_bytes(s: &[u8], sep: u8) -> (r: Vec<Vec<u8>>)
    ensures
        views(r@) == split_on(s@, sep),
{
    let mut parts: Vec<Vec<u8>> = Vec::new();
    let mut cur: Vec<u8> = Vec::new();
    let mut i: usize = 0;
    while i < s.len()
        invariant
            0 <= i <= s@.len(),
            split_on(s@.subrange(0, i as int), sep) == views(parts@).push(cur@),
        decreases s@.len() - i,
    {
        let b = s[i];
        proof {
            assert(s@.subrange(0, i + 1).drop_last() =~= s@.subrange(0, i as int));
        }
        if b == sep {
            let ghost before = parts@;
            let ghost piece = cur@;
            parts.push(cur);
            cur = Vec::new();
            assert(views(parts@) =~= views(before).push(piece));
            assert(views(parts@).push(cur@) =~= views(before).push(piece).push(Seq::<u8>::empty()));
        } else {
            let ghost piece = cur@;
            cur.push(b);
            assert(views(parts@).push(cur@) =~= views(parts@).push(piece).update(
                views(parts@).len() as int,
                piece.push(b),
            ));
        }
        i += 1;
    }
    proof {
        assert(s@.subrange(0, s@.len() as int) =~= s@);
    }
    let ghost before = parts@;
    parts.push(cur);
    assert(views(parts@) =~= views(before).push(cur@));
    parts
}

/// The words of `s` after a pending partial word `cur`: the maximal runs of bytes
/// between whitespace characters, in order, none empty.
pub open spec fn words_after(cur: Seq<u8>, s: Seq<u8>) -> Seq<Seq<u8>>
    decreases s.len(),
{
    let done = if cur.len() > 0 {
        seq![cur]
    } else {
        Seq::<Seq<u8>>::empty()
    };
    if s.len() == 0 {
        done
    } else {
        let k = space_prefix(s);
        if k > 0 && k <= s.len() {
            done + words_after(Seq::empty(), s.subrange(k as int, s.len() as int))
        } else {
            words_after(cur.push(s[0]), s.drop_first())
        }
    }
}

/// The whitespace-separated words of `s`, as `str::split_whitespace` gives them.
pub open spec fn words(s: Seq<u8>) -> Seq<Seq<u8>> {
    words_after(Seq::empty(), s)
}

/// The pieces of `s` between occurrences of CR LF; always at least one piece.
pub open spec fn split_crlf(s: Seq<u8>) -> Seq<Seq<u8>>
    decreases s.len(),
{
    if s.len() == 0 {
        seq![Seq::<u8>::empty()]
    } else if s.len() >= 2 && s[s.len() - 2] == 13 && s.last() == 10 {
        split_crlf(s.subrange(0, s.len() - 2)).push(Seq::<u8>::empty())
    } else {
        let prev = split_crlf(s.drop_last());
        prev.update(prev.len() - 1, prev.last().push(s.last()))
    }
}

pub open spec fn is_digit(b: u8) -> bool {
    48 <= b && b <= 57
}

pub open spec fn all_digits(d: Seq<u8>) -> bool {
    forall|i: int| 0 <= i < d.len() ==> is_digit(#[trigger] d[i])
}

/// The number written in decimal by the digits `d`.
pub open spec fn decimal_value(d: Seq<u8>) -> nat
    decreases d.len(),
{
    if d.len() == 0 {
        0
    } else {
        decimal_value(d.drop_last()) * 10 + (d.last() - 48) as nat
    }
}

/// An unsigned machine-size integer in decimal, with an optional leading `+`; `None`
/// when the text is empty, holds another byte, or names a number above `usize::MAX`.
pub open spec fn parse_usize(v: Seq<u8>) -> Option<nat> {
    let d = if v.len() > 0 && v[0] == 43 {
        v.drop_first()
    } else {
        v
    };
    if d.len() > 0 && all_digits(d) && decimal_value(d) <= usize::MAX {
        Some(decimal_value(d))
    } else {
        None
    }
}

proof fn lemma_decimal_prefix_le(d: Seq<u8>, i: int)
    requires
        0 <= i <= d.len(),
        all_digits(d),
    ensures
        decimal_value(d.subrange(0, i)) <= decimal_value(d),
    decreases d.len() - i,
{
    if i < d.len() {
        lemma_decimal_prefix_le(d, i + 1);
        assert(d.subrange(0, i + 1).drop_last() =~= d.subrange(0, i));
    } else {
        assert(d.subrange(0, i) =~= d);
    }
}

/// Splits `s` into its whitespace-separated words.
pub fn split_spaces(s: &[u8]) -> (r: Vec<Vec<u8>>)
    ensures
        views(r@) == words(s@),
{
    let n = s.len();
    let mut done: Vec<Vec<u8>> = Vec::new();
    let mut cur: Vec<u8> = Vec::new();
    let mut i: usize = 0;
    proof {
        assert(s@.subrange(0, n as int) =~= s@);
    }
    while i < n
        invariant
            0 <= i <= n,
            n == s@.len(),
            words(s@) == views(done@) + words_after(cur@, s@.subrange(i as int, n as int)),
        decreases n - i,
    {
        let ghost t = s@.subrange(i as int, n as int);
        let k = strip_len_at(s, i, n, false);
        if k > 0 {
            proof {
                assert(t.subrange(k as int, t.len() as int) =~= s@.subrange(i + k, n as int));
            }
            if cur.len() > 0 {
                let ghost before = done@;
                let ghost piece = cur@;
                done.push(cur);
                cur = Vec::new();
                assert(views(done@) =~= views(before).push(piece));
                assert(views(before) + (seq![piece] + words_after(
                    Seq::empty(),
                    s@.subrange(i + k, n as int),
                )) =~= views(done@) + words_after(cur@, s@.subrange(i + k, n as int)));
            } else {
                assert(cur@ =~= Seq::<u8>::empty());
                assert(Seq::<Seq<u8>>::empty() + words_after(
                    Seq::empty(),
                    s@.subrange(i + k, n as int),
                ) =~= words_after(cur@, s@.subrange(i + k, n as int)));
            }
            i += k;
        } else {
            proof {
                assert(t.drop_first() =~= s@.subrange(i + 1, n as int));
                assert(t[0] == s@[i as int]);
            }
            cur.push(s[i]);
            i += 1;
        }
    }
    if cur.len() > 0 {
        let ghost before = done@;
        let ghost piece = cur@;
        done.push(cur);
        assert(views(done@) =~= views(before) + seq![piece]);
    } else {
        assert(views(done@) + Seq::<Seq<u8>>::empty() =~= views(done@));
    }
    done
}

/// Splits `s` at every CR LF pair, keeping empty pieces.
pub fn split_lines(s: &[u8]) -> (r: Vec<Vec<u8>>)
    ensures
        views(r@) == split_crlf(s@),
{
    let mut parts: Vec<Vec<u8>> = Vec::new();
    let mut cur: Vec<u8> = Vec::new();
    let mut i: usize = 0;
    let n = s.len();
    while i < n
        invariant
            0 <= i <= n,
            n == s@.len(),
            split_crlf(s@.subrange(0, i as int)) == views(parts@).push(cur@),
            (i > 0 && i < n && s@[i - 1] == 13) ==> s@[i as int] != 10,
        decreases n - i,
    {
        if i + 1 < n && s[i] == 13 && s[i + 1] == 10 {
            let ghost before = parts@;
            let ghost piece = cur@;
            parts.push(cur);
            cur = Vec::new();
            proof {
                let pre = s@.subrange(0, i + 2);
                assert(pre.subrange(0, pre.len() - 2) =~= s@.subrange(0, i as int));
                assert(views(parts@) =~= views(before).push(piece));
            }
            i += 2;
        } else {
            let b = s[i];
            let ghost piece = cur@;
            cur.push(b);
            proof {
                let pre = s@.subrange(0, i + 1);
                assert(pre.drop_last() =~= s@.subrange(0, i as int));
                assert(views(parts@).push(cur@) =~= views(parts@).push(piece).update(
                    views(parts@).len() as int,
                    piece.push(b),
                ));
            }
            i += 1;
        }
    }
    proof {
        assert(s@.subrange(0, n as int) =~= s@);
    }
    let ghost before = parts@;
    let ghost piece = cur@;
    parts.push(cur);
    assert(views(parts@) =~= views(before).push(piece));
    parts
}

/// Reads an unsigned decimal integer, as `str::parse::<usize>` does on ASCII text.
pub fn parse_decimal(v: &[u8]) -> (r: Option<usize>)
    ensures
        match parse_usize(v@) {
            Some(n) => r == Some(n as usize),
            None => r is None,
        },
{
    let start: usize = if v.len() > 0 && v[0] == 43 {
        1
    } else {
        0
    };
    let ghost d = v@.subrange(start as int, v@.len() as int);
    assert(d =~= if v@.len() > 0 && v@[0] == 43 {
        v@.drop_first()
    } else {
        v@
    });
    assert(parse_usize(v@) == if d.len() > 0 && all_digits(d) && decimal_value(d) <= usize::MAX {
        Some(decimal_value(d))
    } else {
        None
    });
    if start == v.len() {
        return None;
    }
    let mut acc: usize = 0;
    let mut i: usize = start;
    while i < v.len()
        invariant
            start <= i <= v@.len(),
            d == v@.subrange(start as int, v@.len() as int),
            d.len() > 0,
            parse_usize(v@) == if all_digits(d) && decimal_value(d) <= usize::MAX {
                Some(decimal_value(d))
            } else {
                None
            },
            all_digits(d.subrange(0, i - start)),
            acc as nat == decimal_value(d.subrange(0, i - start)),
        decreases v@.len() - i,
    {
        let b = v[i];
        let ghost pre = d.subrange(0, i - start + 1);
        assert(pre.drop_last() =~= d.subrange(0, i - start));
        assert(pre.last() == b);
        if b < 48 || b > 57 {
            assert(d[i - start] == b);
            assert(!is_digit(d[i - start]));
            assert(!all_digits(d));
            return None;
        }
        let digit = (b - 48) as usize;
        if acc > (usize::MAX - digit) / 10 {
            proof {
                assert(acc * 10 + digit > usize::MAX) by (nonlinear_arith)
                    requires
                        acc > (usize::MAX - digit) / 10,
                        digit <= 9,
                ;
                assert(all_digits(pre));
                assert(decimal_value(pre) == decimal_value(d.subrange(0, i - start)) * 10 + (b
                    - 48) as nat);
                if all_digits(d) {
                    lemma_decimal_prefix_le(d, i - start + 1);
                }
            }
            return None;
        }
        proof {
            assert(acc * 10 + digit <= usize::MAX) by (nonlinear_arith)
                requires
                    acc <= (usize::MAX - digit) / 10,
                    digit <= 9,
            ;
        }
        acc = acc * 10 + digit;
        i += 1;
        assert(all_digits(d.subrange(0, i - start)));
    }
    assert(d.subrange(0, i - start) =~= d);
    Some(acc)
}

/// Appends the bytes of `b` to `out`.
pub fn extend_bytes(out: &mut Vec<u8>, b: &[u8])
    ensures
        final(out)@ == old(out)@ + b@,
{
    let ghost start = out@;
    let mut i: usize = 0;
    while i < b.len()
        invariant
            0 <= i <= b@.len(),
            out@ == start + b@.subrange(0, i as int),
        decreases b@.len() - i,
    {
        out.push(b[i]);
        i += 1;
        assert(out@ =~= start + b@.subrange(0, i as int));
    }
    assert(b@.subrange(0, b@.len() as int) =~= b@);
}

/// The decimal digits of `n`, without leading zeros.
pub open spec fn decimal_of(n: nat) -> Seq<u8>
    decreases n,
{
    if n < 10 {
        seq![(48 + n) as u8]
    } else {
        decimal_of(n / 10).push((48 + n % 10) as u8)
    }
}

/// Appends the decimal digits of `n` to `out`.
pub fn push_decimal(out: &mut Vec<u8>, n: usize)
    ensures
        final(out)@ == old(out)@ + decimal_of(n as nat),
    decreases n,
{
    if n < 10 {
        out.push((48 + n) as u8);
        assert(out@ =~= old(out)@ + decimal_of(n as nat));
    } else {
        push_decimal(out, n / 10);
        out.push((48 + n % 10) as u8);
        assert(out@ =~= old(out)@ + decimal_of(n as nat));
    }
}

/// Decimal text reads back as the number it was written from.
pub proof fn lemma_decimal_round_trip(n: nat)
    ensures
        decimal_of(n).len() > 0,
        all_digits(decimal_of(n)),
        decimal_value(decimal_of(n)) == n,
    decreases n,
{
    if n >= 10 {
        lemma_decimal_round_trip(n / 10);
        let d = decimal_of(n);
        assert(d.drop_last() == decimal_of(n / 10));
        assert forall|i: int| 0 <= i < d.len() implies is_digit(#[trigger] d[i]) by {
            if i < d.len() - 1 {
                assert(d[i] == decimal_of(n / 10)[i]);
            }
        }
        assert(d.last() - 48 == n % 10);
        assert(decimal_value(d) == decimal_value(decimal_of(n / 10)) * 10 + n % 10);
        assert((n / 10) * 10 + n % 10 == n);
    } else {
        let d = decimal_of(n);
        assert(d.drop_last() =~= Seq::<u8>::empty());
        assert(decimal_value(d) == decimal_value(d.drop_last()) * 10 + (d.last() - 48) as nat);
    }
}

} // verus!
