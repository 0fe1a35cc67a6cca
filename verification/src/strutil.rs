use vstd::prelude::*;

verus! {

// ---------------------------------------------------------------------------
// Characters.
// ---------------------------------------------------------------------------

/// ASCII whitespace.  The protocol text this crate handles is ASCII, so the
/// exotic Unicode space characters are deliberately out of scope.
pub open spec fn is_ws(c: char) -> bool {
    c == ' ' || c == '\t' || c == '\n' || c == '\r'
}

/// Executable test for [`is_ws`].
pub fn char_is_ws(c: char) -> (r: bool)
    ensures
        r == is_ws(c),
{
    c == ' ' || c == '\t' || c == '\n' || c == '\r'
}

/// The code point of `c` with an ASCII lower-case letter folded to its
/// upper-case counterpart; all other characters are left alone.
pub open spec fn up32(c: char) -> int {
    if 'a' <= c && c <= 'z' {
        (c as u32) - 32
    } else {
        c as u32 as int
    }
}

/// True when `a` and `b` are the same character up to ASCII case.
pub open spec fn eq_ci_char(a: char, b: char) -> bool {
    up32(a) == up32(b)
}

/// Executable test for [`eq_ci_char`].
pub fn char_eq_ci(a: char, b: char) -> (r: bool)
    ensures
        r == eq_ci_char(a, b),
{
    let ua: u32 = if 'a' <= a && a <= 'z' {
        (a as u32) - 32
    } else {
        a as u32
    };
    let ub: u32 = if 'a' <= b && b <= 'z' {
        (b as u32) - 32
    } else {
        b as u32
    };
    ua == ub
}

// ---------------------------------------------------------------------------
// Case-insensitive comparison and search.
// ---------------------------------------------------------------------------

/// True when `a` and `b` agree character for character up to ASCII case.
pub open spec fn seq_eq_ci(a: Seq<char>, b: Seq<char>) -> bool {
    a.len() == b.len() && (forall|i: int| 0 <= i < a.len() ==> eq_ci_char(a[i], b[i]))
}

/// Executable test for [`seq_eq_ci`] on string slices.
pub fn str_eq_ci(a: &str, b: &str) -> (r: bool)
    ensures
        r == seq_eq_ci(a@, b@),
{
    let alen = a.unicode_len();
    let blen = b.unicode_len();
    if alen != blen {
        return false;
    }
    let mut i: usize = 0;
    while i < alen
        invariant
            i <= alen,
            alen == a@.len(),
            blen == b@.len(),
            alen == blen,
            forall|j: int| 0 <= j < i ==> eq_ci_char(a@[j], b@[j]),
        decreases alen - i,
    {
        if !char_eq_ci(a.get_char(i), b.get_char(i)) {
            return false;
        }
        i = i + 1;
    }
    true
}

/// True when the characters of `needle` stand in `hay` at offset `i`, up to
/// ASCII case.
pub open spec fn matches_at_ci(hay: Seq<char>, i: int, needle: Seq<char>) -> bool {
    0 <= i && i + needle.len() <= hay.len() && seq_eq_ci(
        hay.subrange(i, i + needle.len() as int),
        needle,
    )
}

/// True when `needle` occurs somewhere in `hay`, up to ASCII case.
pub open spec fn contains_ci(hay: Seq<char>, needle: Seq<char>) -> bool {
    exists|i: int| matches_at_ci(hay, i, needle)
}

/// Executable test for [`matches_at_ci`].
pub fn str_matches_at_ci(hay: &str, i: usize, needle: &str) -> (r: bool)
    requires
        i + needle@.len() <= hay@.len(),
    ensures
        r == matches_at_ci(hay@, i as int, needle@),
{
    let hlen = hay.unicode_len();
    let nlen = needle.unicode_len();
    let mut j: usize = 0;
    while j < nlen
        invariant
            j <= nlen,
            hlen == hay@.len(),
            nlen == needle@.len(),
            i + nlen <= hlen,
            forall|k: int| 0 <= k < j ==> eq_ci_char(hay@[i + k], needle@[k]),
        decreases nlen - j,
    {
        if !char_eq_ci(hay.get_char(i + j), needle.get_char(j)) {
            assert(!seq_eq_ci(hay@.subrange(i as int, i + nlen as int), needle@));
            return false;
        }
        j = j + 1;
    }
    assert(seq_eq_ci(hay@.subrange(i as int, i + nlen as int), needle@));
    true
}

/// Executable test for [`contains_ci`].
pub fn str_contains_ci(hay: &str, needle: &str) -> (r: bool)
    ensures
        r == contains_ci(hay@, needle@),
{
    let hlen = hay.unicode_len();
    let nlen = needle.unicode_len();
    if nlen > hlen {
        assert(forall|i: int| !matches_at_ci(hay@, i, needle@));
        return false;
    }
    if nlen == 0 {
        assert(matches_at_ci(hay@, 0, needle@));
        return true;
    }
    let mut i: usize = 0;
    while i <= hlen - nlen
        invariant
            1 <= nlen <= hlen,
            hlen == hay@.len(),
            nlen == needle@.len(),
            i <= hlen - nlen + 1,
            forall|k: int| 0 <= k < i ==> !matches_at_ci(hay@, k, needle@),
        decreases hlen + 1 - i,
    {
        if str_matches_at_ci(hay, i, needle) {
            return true;
        }
        i = i + 1;
    }
    assert(forall|k: int| !matches_at_ci(hay@, k, needle@));
    false
}

// ---------------------------------------------------------------------------
// Case-sensitive search.
// ---------------------------------------------------------------------------

/// Character-for-character equality of two string slices.
pub fn str_eq(a: &str, b: &str) -> (r: bool)
    ensures
        r == (a@ == b@),
{
    let alen = a.unicode_len();
    let blen = b.unicode_len();
    if alen != blen {
        return false;
    }
    let mut i: usize = 0;
    while i < alen
        invariant
            i <= alen,
            alen == a@.len(),
            blen == b@.len(),
            alen == blen,
            forall|j: int| 0 <= j < i ==> a@[j] == b@[j],
        decreases alen - i,
    {
        if a.get_char(i) != b.get_char(i) {
            return false;
        }
        i = i + 1;
    }
    assert(a@ =~= b@);
    true
}

/// True when the characters of `needle` stand in `hay` at offset `i`.
pub open spec fn matches_at(hay: Seq<char>, i: int, needle: Seq<char>) -> bool {
    0 <= i && i + needle.len() <= hay.len() && hay.subrange(i, i + needle.len() as int) == needle
}

/// True when `needle` occurs somewhere in `hay`.
pub open spec fn contains_seq(hay: Seq<char>, needle: Seq<char>) -> bool {
    exists|i: int| matches_at(hay, i, needle)
}

/// Executable test for [`matches_at`].
pub fn str_matches_at(hay: &str, i: usize, needle: &str) -> (r: bool)
    requires
        i + needle@.len() <= hay@.len(),
    ensures
        r == matches_at(hay@, i as int, needle@),
{
    let hlen = hay.unicode_len();
    let nlen = needle.unicode_len();
    let mut j: usize = 0;
    while j < nlen
        invariant
            j <= nlen,
            hlen == hay@.len(),
            nlen == needle@.len(),
            i + nlen <= hlen,
            forall|k: int| 0 <= k < j ==> hay@[i + k] == needle@[k],
        decreases nlen - j,
    {
        if hay.get_char(i + j) != needle.get_char(j) {
            assert(hay@.subrange(i as int, i + nlen as int)[j as int] != needle@[j as int]);
            return false;
        }
        j = j + 1;
    }
    assert(hay@.subrange(i as int, i + nlen as int) =~= needle@);
    true
}

/// Executable test for [`contains_seq`].
pub fn str_contains(hay: &str, needle: &str) -> (r: bool)
    ensures
        r == contains_seq(hay@, needle@),
{
    let hlen = hay.unicode_len();
    let nlen = needle.unicode_len();
    if nlen > hlen {
        assert(forall|i: int| !matches_at(hay@, i, needle@));
        return false;
    }
    if nlen == 0 {
        assert(hay@.subrange(0, 0) =~= needle@);
        assert(matches_at(hay@, 0, needle@));
        return true;
    }
    let mut i: usize = 0;
    while i <= hlen - nlen
        invariant
            1 <= nlen <= hlen,
            hlen == hay@.len(),
            nlen == needle@.len(),
            i <= hlen - nlen + 1,
            forall|k: int| 0 <= k < i ==> !matches_at(hay@, k, needle@),
        decreases hlen + 1 - i,
    {
        if str_matches_at(hay, i, needle) {
            return true;
        }
        i = i + 1;
    }
    assert(forall|k: int| !matches_at(hay@, k, needle@));
    false
}

/// True when some character of `set` occurs in `s`.
pub open spec fn contains_any_char(s: Seq<char>, set: Seq<char>) -> bool {
    exists|i: int| 0 <= i < s.len() && set.contains(s[i])
}

/// Executable test for [`contains_any_char`].
pub fn str_contains_any_char(s: &str, set: &str) -> (r: bool)
    ensures
        r == contains_any_char(s@, set@),
{
    let slen = s.unicode_len();
    let setlen = set.unicode_len();
    let mut i: usize = 0;
    while i < slen
        invariant
            i <= slen,
            slen == s@.len(),
            setlen == set@.len(),
            forall|k: int| 0 <= k < i ==> !set@.contains(s@[k]),
        decreases slen - i,
    {
        let c = s.get_char(i);
        let mut j: usize = 0;
        while j < setlen
            invariant
                j <= setlen,
                setlen == set@.len(),
                c == s@[i as int],
                0 <= i < s@.len(),
                forall|k: int| 0 <= k < j ==> set@[k] != c,
            decreases setlen - j,
        {
            if set.get_char(j) == c {
                assert(set@.contains(s@[i as int]));
                return true;
            }
            j = j + 1;
        }
        assert(!set@.contains(s@[i as int]));
        i = i + 1;
    }
    false
}

// ---------------------------------------------------------------------------
// Splitting at a separator string.
// ---------------------------------------------------------------------------

/// The pieces of `cur + s` split at each leftmost occurrence of `sep` in
/// `s`, with `cur` the partial piece gathered so far.  Mirrors the split of
/// the standard library: pieces may be empty, separators do not overlap.
pub open spec fn split_seq_acc(s: Seq<char>, sep: Seq<char>, cur: Seq<char>) -> Seq<Seq<char>>
    decreases s.len(),
{
    if sep.len() == 0 || s.len() < sep.len() {
        seq![cur + s]
    } else if s.subrange(0, sep.len() as int) == sep {
        seq![cur] + split_seq_acc(s.subrange(sep.len() as int, s.len() as int), sep, Seq::empty())
    } else {
        split_seq_acc(s.drop_first(), sep, cur.push(s[0]))
    }
}

/// The pieces of `s` split at each leftmost occurrence of `sep`.
pub open spec fn split_seq(s: Seq<char>, sep: Seq<char>) -> Seq<Seq<char>> {
    split_seq_acc(s, sep, Seq::empty())
}

proof fn lemma_split_seq_acc_nonempty(s: Seq<char>, sep: Seq<char>, cur: Seq<char>)
    ensures
        split_seq_acc(s, sep, cur).len() >= 1,
    decreases s.len(),
{
    if !(sep.len() == 0 || s.len() < sep.len()) {
        if s.subrange(0, sep.len() as int) == sep {
        } else {
            lemma_split_seq_acc_nonempty(s.drop_first(), sep, cur.push(s[0]));
        }
    }
}

/// A split yields at least one piece.
pub proof fn lemma_split_seq_nonempty(s: Seq<char>, sep: Seq<char>)
    ensures
        split_seq(s, sep).len() >= 1,
{
    lemma_split_seq_acc_nonempty(s, sep, Seq::empty());
}

/// Splits `s` at each leftmost occurrence of `sep`, keeping empty pieces,
/// as the standard library's splitter does.
pub fn split_str<'a>(s: &'a str, sep: &str) -> (r: Vec<&'a str>)
    requires
        sep@.len() > 0,
    ensures
        r.deep_view() == split_seq(s@, sep@),
{
    let slen = s.unicode_len();
    let seplen = sep.unicode_len();
    let mut out: Vec<&'a str> = Vec::new();
    let mut start: usize = 0;
    let mut i: usize = 0;
    proof {
        assert(s@.subrange(0, slen as int) =~= s@);
        assert(s@.subrange(0, 0) =~= Seq::<char>::empty());
        assert(out.deep_view() + split_seq(s@, sep@) =~= split_seq(s@, sep@));
    }
    while slen - i >= seplen
        invariant
            seplen == sep@.len(),
            slen == s@.len(),
            seplen > 0,
            start <= i <= slen,
            split_seq(s@, sep@) == out.deep_view() + split_seq_acc(
                s@.subrange(i as int, slen as int),
                sep@,
                s@.subrange(start as int, i as int),
            ),
        decreases slen - i,
    {
        let ghost rest = s@.subrange(i as int, slen as int);
        let ghost cur = s@.subrange(start as int, i as int);
        let ghost prev_dv = out.deep_view();
        if str_matches_at(s, i, sep) {
            proof {
                assert(rest.subrange(0, seplen as int) =~= s@.subrange(
                    i as int,
                    i + seplen as int,
                ));
            }
            let piece = s.substring_char(start, i);
            out.push(piece);
            i = i + seplen;
            start = i;
            proof {
                assert(out.deep_view() =~= prev_dv.push(cur));
                assert(rest.subrange(seplen as int, rest.len() as int) =~= s@.subrange(
                    i as int,
                    slen as int,
                ));
                assert(s@.subrange(start as int, i as int) =~= Seq::<char>::empty());
                assert(prev_dv.push(cur) + split_seq_acc(
                    s@.subrange(i as int, slen as int),
                    sep@,
                    Seq::empty(),
                ) =~= prev_dv + (seq![cur] + split_seq_acc(
                    s@.subrange(i as int, slen as int),
                    sep@,
                    Seq::empty(),
                )));
            }
        } else {
            proof {
                assert(rest.subrange(0, seplen as int) =~= s@.subrange(
                    i as int,
                    i + seplen as int,
                ));
            }
            i = i + 1;
            proof {
                assert(rest.drop_first() =~= s@.subrange(i as int, slen as int));
                assert(cur.push(rest[0]) =~= s@.subrange(start as int, i as int));
            }
        }
    }
    let ghost rest = s@.subrange(i as int, slen as int);
    let ghost cur = s@.subrange(start as int, i as int);
    let ghost prev_dv = out.deep_view();
    let last = s.substring_char(start, slen);
    out.push(last);
    proof {
        assert(cur + rest =~= s@.subrange(start as int, slen as int));
        assert(out.deep_view() =~= prev_dv.push(cur + rest));
        assert(prev_dv.push(cur + rest) =~= prev_dv + seq![cur + rest]);
    }
    out
}

// ---------------------------------------------------------------------------
// Splitting at whitespace.
// ---------------------------------------------------------------------------

/// The whitespace-separated tokens of `cur + s`, with `cur` the partial
/// token gathered so far: maximal runs of non-whitespace characters, in
/// order, with nothing empty.
pub open spec fn ws_tokens_acc(s: Seq<char>, cur: Seq<char>) -> Seq<Seq<char>>
    decreases s.len(),
{
    if s.len() == 0 {
        if cur.len() > 0 {
            seq![cur]
        } else {
            Seq::empty()
        }
    } else if is_ws(s[0]) {
        if cur.len() > 0 {
            seq![cur] + ws_tokens_acc(s.drop_first(), Seq::empty())
        } else {
            ws_tokens_acc(s.drop_first(), Seq::empty())
        }
    } else {
        ws_tokens_acc(s.drop_first(), cur.push(s[0]))
    }
}

/// The whitespace-separated tokens of `s`.
pub open spec fn ws_tokens(s: Seq<char>) -> Seq<Seq<char>> {
    ws_tokens_acc(s, Seq::empty())
}

/// Splits `s` into its whitespace-separated tokens, as the standard
/// library's whitespace splitter does on ASCII text.
pub fn split_ws(s: &str) -> (r: Vec<String>)
    ensures
        r.deep_view() == ws_tokens(s@),
{
    let slen = s.unicode_len();
    let mut out: Vec<String> = Vec::new();
    let mut start: usize = 0;
    let mut i: usize = 0;
    proof {
        assert(s@.subrange(0, slen as int) =~= s@);
        assert(s@.subrange(0, 0) =~= Seq::<char>::empty());
        assert(out.deep_view() + ws_tokens(s@) =~= ws_tokens(s@));
    }
    while i < slen
        invariant
            slen == s@.len(),
            start <= i <= slen,
            ws_tokens(s@) == out.deep_view() + ws_tokens_acc(
                s@.subrange(i as int, slen as int),
                s@.subrange(start as int, i as int),
            ),
        decreases slen - i,
    {
        let ghost rest = s@.subrange(i as int, slen as int);
        let ghost cur = s@.subrange(start as int, i as int);
        let ghost prev_dv = out.deep_view();
        let c = s.get_char(i);
        if char_is_ws(c) {
            if i > start {
                let piece = s.substring_char(start, i).to_owned();
                out.push(piece);
            }
            i = i + 1;
            start = i;
            proof {
                assert(rest.drop_first() =~= s@.subrange(i as int, slen as int));
                assert(s@.subrange(start as int, i as int) =~= Seq::<char>::empty());
                if cur.len() > 0 {
                    assert(out.deep_view() =~= prev_dv.push(cur));
                    assert(prev_dv.push(cur) + ws_tokens_acc(
                        s@.subrange(i as int, slen as int),
                        Seq::empty(),
                    ) =~= prev_dv + (seq![cur] + ws_tokens_acc(
                        s@.subrange(i as int, slen as int),
                        Seq::empty(),
                    )));
                }
            }
        } else {
            i = i + 1;
            proof {
                assert(rest.drop_first() =~= s@.subrange(i as int, slen as int));
                assert(cur.push(rest[0]) =~= s@.subrange(start as int, i as int));
            }
        }
    }
    let ghost cur = s@.subrange(start as int, i as int);
    let ghost prev_dv = out.deep_view();
    if i > start {
        let piece = s.substring_char(start, i).to_owned();
        out.push(piece);
        proof {
            assert(s@.subrange(i as int, slen as int) =~= Seq::<char>::empty());
            assert(out.deep_view() =~= prev_dv.push(cur));
            assert(prev_dv.push(cur) =~= prev_dv + seq![cur]);
        }
    } else {
        proof {
            assert(s@.subrange(i as int, slen as int) =~= Seq::<char>::empty());
            assert(cur =~= Seq::<char>::empty());
            assert(prev_dv + Seq::<Seq<char>>::empty() =~= prev_dv);
        }
    }
    out
}

// ---------------------------------------------------------------------------
// Trimming.
// ---------------------------------------------------------------------------

/// `s` without its leading whitespace.
pub open spec fn drop_leading_ws(s: Seq<char>) -> Seq<char>
    decreases s.len(),
{
    if s.len() > 0 && is_ws(s[0]) {
        drop_leading_ws(s.drop_first())
    } else {
        s
    }
}

/// `s` without its trailing whitespace.
pub open spec fn drop_trailing_ws(s: Seq<char>) -> Seq<char>
    decreases s.len(),
{
    if s.len() > 0 && is_ws(s[s.len() - 1]) {
        drop_trailing_ws(s.drop_last())
    } else {
        s
    }
}

/// `s` without leading and trailing whitespace.
pub open spec fn trim_seq(s: Seq<char>) -> Seq<char> {
    drop_trailing_ws(drop_leading_ws(s))
}

proof fn lemma_drop_leading_ws(s: Seq<char>, a: int)
    requires
        0 <= a <= s.len(),
        forall|k: int| 0 <= k < a ==> is_ws(s[k]),
        a == s.len() || !is_ws(s[a]),
    ensures
        drop_leading_ws(s) == s.subrange(a, s.len() as int),
    decreases a,
{
    if a == 0 {
        assert(s.subrange(0, s.len() as int) =~= s);
    } else {
        lemma_drop_leading_ws(s.drop_first(), a - 1);
        assert(s.drop_first().subrange(a - 1, s.drop_first().len() as int) =~= s.subrange(
            a,
            s.len() as int,
        ));
    }
}

proof fn lemma_drop_trailing_ws(s: Seq<char>, b: int)
    requires
        0 <= b <= s.len(),
        forall|k: int| b <= k < s.len() ==> is_ws(s[k]),
        b == 0 || !is_ws(s[b - 1]),
    ensures
        drop_trailing_ws(s) == s.subrange(0, b),
    decreases s.len(),
{
    if b == s.len() {
        assert(s.subrange(0, s.len() as int) =~= s);
    } else {
        lemma_drop_trailing_ws(s.drop_last(), b);
        assert(s.drop_last().subrange(0, b) =~= s.subrange(0, b));
    }
}

/// Removes leading and trailing ASCII whitespace, as the standard library's
/// trim does on ASCII text.
pub fn trim_str(s: &str) -> (r: String)
    ensures
        r@ == trim_seq(s@),
{
    let slen = s.unicode_len();
    let mut a: usize = 0;
    while a < slen && char_is_ws(s.get_char(a))
        invariant
            a <= slen,
            slen == s@.len(),
            forall|k: int| 0 <= k < a ==> is_ws(s@[k]),
        decreases slen - a,
    {
        a = a + 1;
    }
    let mut b: usize = slen;
    while b > a && char_is_ws(s.get_char(b - 1))
        invariant
            a <= b <= slen,
            slen == s@.len(),
            forall|k: int| 0 <= k < a ==> is_ws(s@[k]),
            a == slen || !is_ws(s@[a as int]),
            forall|k: int| b <= k < slen ==> is_ws(s@[k]),
        decreases b,
    {
        b = b - 1;
    }
    proof {
        lemma_drop_leading_ws(s@, a as int);
        let t = s@.subrange(a as int, slen as int);
        lemma_drop_trailing_ws(t, b - a);
        assert(t.subrange(0, b - a) =~= s@.subrange(a as int, b as int));
    }
    s.substring_char(a, b).to_owned()
}

/// `s` without its trailing NUL padding.
pub open spec fn drop_trailing_nuls(s: Seq<char>) -> Seq<char>
    decreases s.len(),
{
    if s.len() > 0 && s[s.len() - 1] == '\0' {
        drop_trailing_nuls(s.drop_last())
    } else {
        s
    }
}

proof fn lemma_drop_trailing_nuls(s: Seq<char>, b: int)
    requires
        0 <= b <= s.len(),
        forall|k: int| b <= k < s.len() ==> s[k] == '\0',
        b == 0 || s[b - 1] != '\0',
    ensures
        drop_trailing_nuls(s) == s.subrange(0, b),
    decreases s.len(),
{
    if b == s.len() {
        assert(s.subrange(0, s.len() as int) =~= s);
    } else {
        lemma_drop_trailing_nuls(s.drop_last(), b);
        assert(s.drop_last().subrange(0, b) =~= s.subrange(0, b));
    }
}

/// Removes the trailing NUL padding that a fixed-size read buffer leaves
/// behind an uploaded body.
pub fn trim_trailing_nuls(s: &str) -> (r: String)
    ensures
        r@ == drop_trailing_nuls(s@),
{
    let slen = s.unicode_len();
    let mut b: usize = slen;
    while b > 0 && s.get_char(b - 1) == '\0'
        invariant
            b <= slen,
            slen == s@.len(),
            forall|k: int| b <= k < slen ==> s@[k] == '\0',
        decreases b,
    {
        b = b - 1;
    }
    proof {
        lemma_drop_trailing_nuls(s@, b as int);
    }
    s.substring_char(0, b).to_owned()
}

// ---------------------------------------------------------------------------
// ASCII lowering.
// ---------------------------------------------------------------------------

/// `c` with an ASCII upper-case letter folded to lower case; all other
/// characters are left alone.
pub open spec fn low_char(c: char) -> char {
    if 'A' <= c && c <= 'Z' {
        (((c as u32) + 32) as u8) as char
    } else {
        c
    }
}

/// `s` lowered character by character.
pub open spec fn ascii_lower_seq(s: Seq<char>) -> Seq<char> {
    Seq::new(s.len(), |i: int| low_char(s[i]))
}

/// Lowers `s` character by character, as the standard lowering does on
/// ASCII text.
pub fn to_ascii_lower(s: &str) -> (r: String)
    ensures
        r@ == ascii_lower_seq(s@),
{
    let slen = s.unicode_len();
    let mut out = String::new();
    let mut i: usize = 0;
    while i < slen
        invariant
            i <= slen,
            slen == s@.len(),
            out@ == ascii_lower_seq(s@).take(i as int),
        decreases slen - i,
    {
        let c = s.get_char(i);
        let cv = c as u32;
        if 65 <= cv && cv <= 90 {
            let lowered: char = ((cv + 32) as u8) as char;
            let one = char_to_string(lowered);
            out.append(one.as_str());
        } else {
            let piece = s.substring_char(i, i + 1);
            out.append(piece);
            proof {
                assert(piece@ =~= seq![s@[i as int]]);
            }
        }
        i = i + 1;
        proof {
            assert(out@ =~= ascii_lower_seq(s@).take(i as int));
        }
    }
    proof {
        assert(ascii_lower_seq(s@).take(slen as int) =~= ascii_lower_seq(s@));
    }
    out
}

/// A one-character string holding `c`.  Implemented for the ASCII range,
/// which is all this crate lowers.
fn char_to_string(c: char) -> (r: String)
    requires
        (c as u32) < 128,
    ensures
        r@ == seq![c],
{
    let mut v: Vec<u8> = Vec::new();
    v.push(c as u8);
    ascii_bytes_to_string(&v)
}

/// Relies on `String::from_utf8`: bytes below 128 are ASCII, which UTF-8
/// keeps unchanged, so the call cannot fail and yields exactly those bytes
/// as characters.
#[verifier::external_body]
fn ascii_bytes_to_string(v: &Vec<u8>) -> (r: String)
    requires
        forall|i: int| 0 <= i < v@.len() ==> v@[i] < 128,
    ensures
        r@ == Seq::new(v@.len(), |i: int| v@[i] as char),
{
    String::from_utf8(v.clone()).unwrap_or_default()
}

// ---------------------------------------------------------------------------
// Decimal parsing.
// ---------------------------------------------------------------------------

/// An ASCII decimal digit.
pub open spec fn is_digit(c: char) -> bool {
    '0' <= c && c <= '9'
}

/// The numeric value of a digit character.
pub open spec fn digit_val(c: char) -> int {
    (c as u32) - 48
}

/// True when `s` consists of digits only.
pub open spec fn all_digits(s: Seq<char>) -> bool {
    forall|i: int| 0 <= i < s.len() ==> is_digit(s[i])
}

/// The number that the digit string `s` denotes.
pub open spec fn dec_value(s: Seq<char>) -> int
    decreases s.len(),
{
    if s.len() == 0 {
        0
    } else {
        dec_value(s.drop_last()) * 10 + digit_val(s.last())
    }
}

/// A digit string's value is never negative.
pub proof fn lemma_dec_value_nonneg(s: Seq<char>)
    requires
        all_digits(s),
    ensures
        dec_value(s) >= 0,
    decreases s.len(),
{
    if s.len() > 0 {
        assert(all_digits(s.drop_last()));
        lemma_dec_value_nonneg(s.drop_last());
    }
}

/// A digit string's value only grows as digits are appended.
pub proof fn lemma_dec_value_prefix(s: Seq<char>, k: int)
    requires
        all_digits(s),
        0 <= k <= s.len(),
    ensures
        dec_value(s.take(k)) <= dec_value(s),
    decreases s.len() - k,
{
    if k == s.len() {
        assert(s.take(k) =~= s);
    } else {
        lemma_dec_value_prefix(s, k + 1);
        assert(s.take(k + 1).drop_last() =~= s.take(k));
        assert(all_digits(s.take(k)));
        lemma_dec_value_nonneg(s.take(k));
        assert(s.take(k + 1).last() == s[k]);
        assert(dec_value(s.take(k)) <= dec_value(s.take(k + 1)));
    }
}

/// Parses a plain decimal number: digits only, no sign, value within
/// machine range.  Anything else yields nothing.
pub fn parse_u64(s: &str) -> (r: Option<u64>)
    ensures
        r matches Some(n) ==> s@.len() > 0 && all_digits(s@) && dec_value(s@) == n,
        r is None ==> s@.len() == 0 || !all_digits(s@) || dec_value(s@) > u64::MAX,
{
    let slen = s.unicode_len();
    if slen == 0 {
        return None;
    }
    let mut n: u64 = 0;
    let mut i: usize = 0;
    while i < slen
        invariant
            i <= slen,
            slen == s@.len(),
            forall|k: int| 0 <= k < i ==> is_digit(s@[k]),
            n == dec_value(s@.take(i as int)),
        decreases slen - i,
    {
        let c = s.get_char(i);
        let cv = c as u32;
        if cv < 48 || cv > 57 {
            assert(!is_digit(s@[i as int]));
            return None;
        }
        let d: u64 = (cv - 48) as u64;
        if n > (u64::MAX - d) / 10 {
            proof {
                assert(s@.take(i + 1).drop_last() =~= s@.take(i as int));
                assert(s@.take(i + 1).last() == s@[i as int]);
                assert(dec_value(s@.take(i + 1)) == n * 10 + d);
                assert(n * 10 + d > u64::MAX) by (nonlinear_arith)
                    requires
                        n > (u64::MAX - d) / 10,
                        d <= 9,
                ;
                if all_digits(s@) {
                    lemma_dec_value_prefix(s@, i + 1);
                }
            }
            return None;
        }
        proof {
            assert(n * 10 + d <= u64::MAX) by (nonlinear_arith)
                requires
                    n <= (u64::MAX - d) / 10,
                    d <= 9,
            ;
            assert(s@.take(i + 1).drop_last() =~= s@.take(i as int));
            assert(s@.take(i + 1).last() == s@[i as int]);
        }
        n = n * 10 + d;
        i = i + 1;
    }
    proof {
        assert(s@.take(slen as int) =~= s@);
    }
    Some(n)
}

/// Index of the first whitespace character of `s`, or its length when `s`
/// holds none.
pub open spec fn first_ws(s: Seq<char>) -> int
    decreases s.len(),
{
    if s.len() == 0 {
        0
    } else if is_ws(s[0]) {
        0
    } else {
        1 + first_ws(s.drop_first())
    }
}

/// A position with only non-whitespace before it and whitespace (or the
/// end) at it is the first whitespace position.
pub proof fn lemma_first_ws(s: Seq<char>, p: int)
    requires
        0 <= p <= s.len(),
        forall|k: int| 0 <= k < p ==> !is_ws(s[k]),
        p == s.len() || is_ws(s[p]),
    ensures
        first_ws(s) == p,
    decreases p,
{
    if p == 0 {
    } else {
        lemma_first_ws(s.drop_first(), p - 1);
    }
}

// ---------------------------------------------------------------------------
// Decimal rendering.
// ---------------------------------------------------------------------------

/// The decimal digit character for `d`.
pub open spec fn dec_digit(d: int) -> char {
    if d == 0 {
        '0'
    } else if d == 1 {
        '1'
    } else if d == 2 {
        '2'
    } else if d == 3 {
        '3'
    } else if d == 4 {
        '4'
    } else if d == 5 {
        '5'
    } else if d == 6 {
        '6'
    } else if d == 7 {
        '7'
    } else if d == 8 {
        '8'
    } else {
        '9'
    }
}

/// The decimal rendering of `n`: its digits, most significant first, with
/// no leading zero except for zero itself.
pub open spec fn dec_digits(n: nat) -> Seq<char>
    decreases n,
{
    if n < 10 {
        seq![dec_digit(n as int)]
    } else {
        dec_digits(n / 10).push(dec_digit((n % 10) as int))
    }
}

/// The decimal digit character for `d`, as a one-character string.
fn digit_str(d: usize) -> (r: &'static str)
    requires
        d < 10,
    ensures
        r@ == seq![dec_digit(d as int)],
{
    proof {
        reveal_strlit("0");
        reveal_strlit("1");
        reveal_strlit("2");
        reveal_strlit("3");
        reveal_strlit("4");
        reveal_strlit("5");
        reveal_strlit("6");
        reveal_strlit("7");
        reveal_strlit("8");
        reveal_strlit("9");
    }
    let r: &'static str = if d == 0 {
        "0"
    } else if d == 1 {
        "1"
    } else if d == 2 {
        "2"
    } else if d == 3 {
        "3"
    } else if d == 4 {
        "4"
    } else if d == 5 {
        "5"
    } else if d == 6 {
        "6"
    } else if d == 7 {
        "7"
    } else if d == 8 {
        "8"
    } else {
        "9"
    };
    assert(r@ =~= seq![dec_digit(d as int)]);
    r
}

/// Renders `n` in decimal.
pub fn usize_to_string(n: usize) -> (r: String)
    ensures
        r@ == dec_digits(n as nat),
    decreases n,
{
    if n < 10 {
        digit_str(n).to_owned()
    } else {
        let mut s = usize_to_string(n / 10);
        s.append(digit_str(n % 10));
        assert(s@ =~= dec_digits(n as nat));
        s
    }
}

} // verus!
