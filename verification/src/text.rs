use vstd::prelude::*;
use vstd::string::*;

verus! {

broadcast use vstd::string::group_string_axioms;

/// `pat` occurs in `s` starting at index `i`.
pub open spec fn matches_at(s: Seq<char>, pat: Seq<char>, i: int) -> bool {
    0 <= i && i + pat.len() <= s.len() && s.subrange(i, i + pat.len()) == pat
}

/// Index of the first occurrence of `pat` in `s` at or after `from`.
pub open spec fn find_from(s: Seq<char>, pat: Seq<char>, from: int) -> Option<int>
    decreases s.len() - from,
{
    if from < 0 || from + pat.len() > s.len() {
        None
    } else if matches_at(s, pat, from) {
        Some(from)
    } else if pat.len() == 0 {
        Some(from)
    } else {
        find_from(s, pat, from + 1)
    }
}

/// Every non-overlapping occurrence of `pat` in `s`, found left to right,
/// replaced by `rep` (the behaviour of `str::replace` for a non-empty pattern).
pub open spec fn replace_all(s: Seq<char>, pat: Seq<char>, rep: Seq<char>) -> Seq<char>
    decreases s.len(),
{
    if pat.len() == 0 || s.len() < pat.len() {
        s
    } else if s.take(pat.len() as int) == pat {
        rep + replace_all(s.skip(pat.len() as int), pat, rep)
    } else {
        seq![s[0]] + replace_all(s.skip(1), pat, rep)
    }
}

/// Every occurrence of a pattern is replaced wherever it stands: when no
/// occurrence of `pat` starts inside `before`, replacing in
/// `before + pat + after` keeps `before`, puts `rep` in place of that
/// occurrence, and goes on replacing in `after`.
pub proof fn lemma_replace_all_first_occurrence(before: Seq<char>, pat: Seq<char>, rep: Seq<char>, after: Seq<char>)
    requires
        pat.len() > 0,
        forall|j: int| 0 <= j < before.len() ==> !matches_at(before + pat + after, pat, j),
    ensures
        replace_all(before + pat + after, pat, rep) == before + rep + replace_all(after, pat, rep),
    decreases before.len(),
{
    let s = before + pat + after;
    if before.len() == 0 {
        assert(s =~= pat + after);
        assert(s.take(pat.len() as int) =~= pat);
        assert(s.skip(pat.len() as int) =~= after);
        assert(before + rep + replace_all(after, pat, rep) =~= rep + replace_all(after, pat, rep));
    } else {
        assert(!matches_at(s, pat, 0));
        assert(s.take(pat.len() as int) =~= s.subrange(0, pat.len() as int));
        let b1 = before.skip(1);
        assert(s.skip(1) =~= b1 + pat + after);
        assert forall|j: int| 0 <= j < b1.len() implies !matches_at(b1 + pat + after, pat, j) by {
            assert(!matches_at(s, pat, j + 1));
            if j + pat.len() <= (b1 + pat + after).len() {
                assert((b1 + pat + after).subrange(j, j + pat.len()) =~= s.subrange(j + 1, j + 1 + pat.len()));
            }
        }
        lemma_replace_all_first_occurrence(b1, pat, rep, after);
        assert(before =~= seq![before[0]] + b1);
        assert(s[0] == before[0]);
        assert(before + rep + replace_all(after, pat, rep) =~= seq![before[0]] + (b1 + rep + replace_all(after, pat, rep)));
    }
}

/// The decimal digit character for `d < 10`.
pub open spec fn digit_char(d: nat) -> char {
    if d == 0 { '0' }
    else if d == 1 { '1' }
    else if d == 2 { '2' }
    else if d == 3 { '3' }
    else if d == 4 { '4' }
    else if d == 5 { '5' }
    else if d == 6 { '6' }
    else if d == 7 { '7' }
    else if d == 8 { '8' }
    else { '9' }
}

/// The decimal representation of `n`, without leading zeros.
pub open spec fn decimal(n: nat) -> Seq<char>
    decreases n,
{
    if n < 10 {
        seq![digit_char(n)]
    } else {
        decimal(n / 10).push(digit_char(n % 10))
    }
}

/// The decimal representation of a signed integer, with a leading `-` when negative.
pub open spec fn signed_decimal(n: int) -> Seq<char> {
    if n < 0 {
        seq!['-'] + decimal((-n) as nat)
    } else {
        decimal(n as nat)
    }
}

/// Number of bytes that `c` takes in UTF-8.
pub open spec fn utf8_width(c: char) -> nat {
    if (c as u32) < 0x80 {
        1
    } else if (c as u32) < 0x800 {
        2
    } else if (c as u32) < 0x10000 {
        3
    } else {
        4
    }
}

/// Number of bytes that `s` takes in UTF-8.
pub open spec fn utf8_len(s: Seq<char>) -> nat
    decreases s.len(),
{
    if s.len() == 0 {
        0
    } else {
        utf8_len(s.drop_last()) + utf8_width(s.last())
    }
}

/// Every character of `s` is ASCII.
pub open spec fn all_ascii(s: Seq<char>) -> bool {
    forall|i: int| 0 <= i < s.len() ==> (#[trigger] s[i] as u32) < 0x80
}

/// The characters of `s`, in order.
pub fn chars_of(s: &str) -> (out: Vec<char>)
    ensures
        out@ == s@,
{
    let mut out: Vec<char> = Vec::new();
    for c in it: s.chars()
        invariant
            out@ == it.seq().take(it.index() as int),
            it.seq() == s@,
    {
        out.push(c);
    }
    out
}

/// Collects characters into a `String` through std's `FromIterator<&char>`
/// impl for `String`; the contract claims that the string holds exactly
/// those characters, in order.
#[verifier::external_body]
pub(crate) fn string_of(chars: &Vec<char>) -> (s: String)
    ensures
        s@ == chars@,
{
    chars.iter().collect()
}

/// Whether `pat` occurs in `s` at index `i`.
pub fn matches_at_exec(s: &Vec<char>, pat: &Vec<char>, i: usize) -> (res: bool)
    ensures
        res == matches_at(s@, pat@, i as int),
{
    if i > s.len() || pat.len() > s.len() - i {
        return false;
    }
    let mut j: usize = 0;
    while j < pat.len()
        invariant
            i + pat.len() <= s.len(),
            j <= pat.len(),
            forall|k: int| 0 <= k < j ==> s@[i + k] == pat@[k],
        decreases pat.len() - j,
    {
        if s[i + j] != pat[j] {
            assert(s@.subrange(i as int, i + pat.len())[j as int] != pat@[j as int]);
            return false;
        }
        j = j + 1;
    }
    assert(s@.subrange(i as int, i + pat.len()) =~= pat@);
    true
}

/// Index of the first occurrence of `pat` in `s` at or after `from`.
pub fn find_from_exec(s: &Vec<char>, pat: &Vec<char>, from: usize) -> (res: Option<usize>)
    ensures
        match res {
            Some(k) => find_from(s@, pat@, from as int) == Some(k as int),
            None => find_from(s@, pat@, from as int) is None,
        },
{
    let mut i = from;
    while i <= s.len() && pat.len() <= s.len() - i
        invariant
            from <= i,
            find_from(s@, pat@, from as int) == find_from(s@, pat@, i as int),
        decreases s.len() - i,
    {
        if matches_at_exec(s, pat, i) {
            return Some(i);
        }
        if pat.len() == 0 {
            return Some(i);
        }
        i = i + 1;
    }
    None
}

/// `s` with every non-overlapping occurrence of `pat` replaced by `rep`.
pub fn replace_all_exec(s: &Vec<char>, pat: &Vec<char>, rep: &Vec<char>) -> (out: Vec<char>)
    ensures
        out@ == replace_all(s@, pat@, rep@),
{
    let mut out: Vec<char> = Vec::new();
    if pat.len() == 0 {
        let mut k: usize = 0;
        while k < s.len()
            invariant
                k <= s.len(),
                out@ == s@.take(k as int),
            decreases s.len() - k,
        {
            out.push(s[k]);
            k = k + 1;
        }
        assert(s@.take(s.len() as int) =~= s@);
        return out;
    }
    let mut i: usize = 0;
    assert(s@.skip(0) =~= s@);
    assert(out@ + replace_all(s@, pat@, rep@) =~= replace_all(s@, pat@, rep@));
    while i < s.len()
        invariant
            i <= s.len(),
            pat@.len() > 0,
            out@ + replace_all(s@.skip(i as int), pat@, rep@) == replace_all(s@, pat@, rep@),
        decreases s.len() - i,
    {
        let ghost rest = s@.skip(i as int);
        if matches_at_exec(s, pat, i) {
            assert(rest.take(pat@.len() as int) =~= pat@);
            assert(rest.skip(pat@.len() as int) =~= s@.skip(i + pat@.len()));
            let mut k: usize = 0;
            let ghost before = out@;
            while k < rep.len()
                invariant
                    k <= rep.len(),
                    out@ == before + rep@.take(k as int),
                decreases rep.len() - k,
            {
                out.push(rep[k]);
                k = k + 1;
            }
            assert(rep@.take(rep.len() as int) =~= rep@);
            assert(out@ + replace_all(s@.skip(i + pat.len()), pat@, rep@) =~= before + (rep@
                + replace_all(rest.skip(pat@.len() as int), pat@, rep@)));
            i = i + pat.len();
        } else {
            let ghost before = out@;
            proof {
                if rest.len() >= pat@.len() {
                    assert(rest.take(pat@.len() as int) =~= s@.subrange(i as int, i + pat@.len()));
                }
                assert(rest.skip(1) =~= s@.skip(i + 1));
                if rest.len() < pat@.len() {
                    assert(replace_all(rest, pat@, rep@) == rest);
                    assert(replace_all(rest.skip(1), pat@, rep@) == rest.skip(1)) by {
                        assert(rest.skip(1).len() < pat@.len());
                    }
                    assert(rest =~= seq![s@[i as int]] + rest.skip(1));
                }
            }
            out.push(s[i]);
            assert(out@ + replace_all(s@.skip(i + 1), pat@, rep@) =~= before + (seq![s@[i as int]]
                + replace_all(rest.skip(1), pat@, rep@)));
            i = i + 1;
        }
    }
    assert(s@.skip(i as int) =~= Seq::<char>::empty());
    assert(out@ + Seq::<char>::empty() =~= out@);
    out
}

/// The decimal digit character for `d < 10`.
pub fn digit_char_exec(d: u128) -> (c: char)
    requires
        d < 10,
    ensures
        c == digit_char(d as nat),
{
    if d == 0 { '0' }
    else if d == 1 { '1' }
    else if d == 2 { '2' }
    else if d == 3 { '3' }
    else if d == 4 { '4' }
    else if d == 5 { '5' }
    else if d == 6 { '6' }
    else if d == 7 { '7' }
    else if d == 8 { '8' }
    else { '9' }
}

/// The decimal representation of `n`.
pub fn decimal_chars(n: u128) -> (out: Vec<char>)
    ensures
        out@ == decimal(n as nat),
    decreases n,
{
    if n < 10 {
        let mut v: Vec<char> = Vec::new();
        v.push(digit_char_exec(n));
        assert(v@ =~= seq![digit_char(n as nat)]);
        v
    } else {
        let mut v = decimal_chars(n / 10);
        v.push(digit_char_exec(n % 10));
        v
    }
}

/// The decimal representation of a signed integer.
pub fn signed_decimal_chars(n: i64) -> (out: Vec<char>)
    ensures
        out@ == signed_decimal(n as int),
{
    if n < 0 {
        let magnitude: u128 = (0i128 - (n as i128)) as u128;
        let digits = decimal_chars(magnitude);
        let mut out: Vec<char> = Vec::new();
        out.push('-');
        let mut k: usize = 0;
        while k < digits.len()
            invariant
                k <= digits.len(),
                out@ == seq!['-'] + digits@.take(k as int),
            decreases digits.len() - k,
        {
            out.push(digits[k]);
            k = k + 1;
            assert(digits@.take(k as int) =~= digits@.take(k - 1).push(digits@[k - 1]));
        }
        assert(digits@.take(digits.len() as int) =~= digits@);
        out
    } else {
        decimal_chars(n as u128)
    }
}

/// Number of bytes that `c` takes in UTF-8.
pub fn utf8_width_exec(c: char) -> (w: u128)
    ensures
        w == utf8_width(c),
{
    let v = c as u32;
    if v < 0x80 {
        1
    } else if v < 0x800 {
        2
    } else if v < 0x10000 {
        3
    } else {
        4
    }
}

/// Number of bytes that the first `n` characters of `s` take in UTF-8.
pub fn utf8_len_prefix(s: &Vec<char>, n: usize) -> (len: u128)
    requires
        n <= s.len(),
    ensures
        len == utf8_len(s@.take(n as int)),
{
    let mut total: u128 = 0;
    let mut i: usize = 0;
    while i < n
        invariant
            i <= n <= s.len(),
            total == utf8_len(s@.take(i as int)),
            total <= 4 * i,
        decreases n - i,
    {
        let w = utf8_width_exec(s[i]);
        assert(s@.take(i + 1).drop_last() =~= s@.take(i as int));
        total = total + w;
        i = i + 1;
    }
    total
}

/// Whether `s` begins with `prefix`.
pub fn starts_with(s: &str, prefix: &str) -> (r: bool)
    ensures
        r == prefix@.is_prefix_of(s@),
{
    let sc = chars_of(s);
    let pc = chars_of(prefix);
    let r = matches_at_exec(&sc, &pc, 0);
    proof {
        if r {
            assert(sc@.subrange(0, pc@.len() as int) == pc@);
            assert forall|i: int| 0 <= i < pc@.len() implies pc@[i] == sc@[i] by {
                assert(sc@.subrange(0, pc@.len() as int)[i] == sc@[i]);
            }
        } else if pc@.is_prefix_of(sc@) {
            assert(sc@.subrange(0, pc@.len() as int) =~= pc@);
        }
    }
    r
}

/// `s` without its leading `prefix`, when it begins with it.
pub fn strip_prefix(s: &str, prefix: &str) -> (r: Option<String>)
    ensures
        match r {
            Some(rest) => prefix@.is_prefix_of(s@) && rest@ == s@.skip(prefix@.len() as int),
            None => !prefix@.is_prefix_of(s@),
        },
{
    if starts_with(s, prefix) {
        let sc = chars_of(s);
        let pc = chars_of(prefix);
        let mut rest: Vec<char> = Vec::new();
        let mut k = pc.len();
        while k < sc.len()
            invariant
                pc@.len() <= k <= sc@.len(),
                rest@ == sc@.subrange(pc@.len() as int, k as int),
            decreases sc.len() - k,
        {
            rest.push(sc[k]);
            k = k + 1;
            assert(sc@.subrange(pc@.len() as int, k as int) =~= sc@.subrange(pc@.len() as int, k - 1).push(sc@[k - 1]));
        }
        assert(rest@ =~= sc@.skip(pc@.len() as int));
        Some(string_of(&rest))
    } else {
        None
    }
}

/// Whether `c` has the Unicode `White_Space` property, which is what
/// `char::is_whitespace` tests: tab to carriage return, space, next line,
/// no-break space, ogham space mark, the spaces from en quad to hair space,
/// line and paragraph separators, narrow no-break space, medium
/// mathematical space and ideographic space.
pub open spec fn unicode_whitespace(c: char) -> bool {
    let v = c as u32;
    ||| 0x9 <= v <= 0xD
    ||| v == 0x20
    ||| v == 0x85
    ||| v == 0xA0
    ||| v == 0x1680
    ||| 0x2000 <= v <= 0x200A
    ||| v == 0x2028
    ||| v == 0x2029
    ||| v == 0x202F
    ||| v == 0x205F
    ||| v == 0x3000
}

/// Whether `c` is Unicode whitespace.
fn char_is_whitespace(c: char) -> (r: bool)
    ensures
        r == unicode_whitespace(c),
{
    let v = c as u32;
    (0x9 <= v && v <= 0xD) || v == 0x20 || v == 0x85 || v == 0xA0 || v == 0x1680 || (0x2000 <= v && v
        <= 0x200A) || v == 0x2028 || v == 0x2029 || v == 0x202F || v == 0x205F || v == 0x3000
}

/// `s` without its leading and trailing whitespace (as `str::trim` does).
pub open spec fn trimmed(s: Seq<char>, lo: int, hi: int) -> bool {
    &&& 0 <= lo <= hi <= s.len()
    &&& forall|k: int| 0 <= k < lo ==> unicode_whitespace(#[trigger] s[k])
    &&& forall|k: int| hi <= k < s.len() ==> unicode_whitespace(#[trigger] s[k])
    &&& lo < hi ==> !unicode_whitespace(s[lo]) && !unicode_whitespace(s[hi - 1])
}

/// `s` without leading and trailing whitespace.
pub fn trim(s: &str) -> (out: String)
    ensures
        exists|lo: int, hi: int| trimmed(s@, lo, hi) && out@ == s@.subrange(lo, hi),
{
    let c = chars_of(s);
    let mut lo: usize = 0;
    while lo < c.len() && char_is_whitespace(c[lo])
        invariant
            lo <= c@.len(),
            forall|k: int| 0 <= k < lo ==> unicode_whitespace(#[trigger] c@[k]),
        decreases c.len() - lo,
    {
        lo = lo + 1;
    }
    let mut hi: usize = c.len();
    while hi > lo && char_is_whitespace(c[hi - 1])
        invariant
            lo <= hi <= c@.len(),
            forall|k: int| hi <= k < c@.len() ==> unicode_whitespace(#[trigger] c@[k]),
        decreases hi - lo,
    {
        hi = hi - 1;
    }
    let mut out: Vec<char> = Vec::new();
    let mut k = lo;
    while k < hi
        invariant
            lo <= k <= hi <= c@.len(),
            out@ == c@.subrange(lo as int, k as int),
        decreases hi - k,
    {
        out.push(c[k]);
        k = k + 1;
        assert(c@.subrange(lo as int, k as int) =~= c@.subrange(lo as int, k - 1).push(c@[k - 1]));
    }
    assert(trimmed(s@, lo as int, hi as int));
    string_of(&out)
}

/// The trimmed bounds of a text are unique.
pub proof fn lemma_trim_unique(s: Seq<char>, lo: int, hi: int, lo2: int, hi2: int)
    requires
        trimmed(s, lo, hi),
        trimmed(s, lo2, hi2),
    ensures
        s.subrange(lo, hi) == s.subrange(lo2, hi2),
{
    if lo == hi || lo2 == hi2 {
        if lo < hi {
            assert(!unicode_whitespace(s[lo]));
            assert(unicode_whitespace(s[lo]));
        }
        if lo2 < hi2 {
            assert(!unicode_whitespace(s[lo2]));
            assert(unicode_whitespace(s[lo2]));
        }
        assert(s.subrange(lo, hi) =~= s.subrange(lo2, hi2));
        return;
    }
    if lo < lo2 {
        assert(unicode_whitespace(s[lo]));
    }
    if lo2 < lo {
        assert(unicode_whitespace(s[lo2]));
    }
    if lo < hi && lo2 < hi2 {
        if hi < hi2 {
            assert(unicode_whitespace(s[hi2 - 1]));
        }
        if hi2 < hi {
            assert(unicode_whitespace(s[hi - 1]));
        }
    }
    assert(s.subrange(lo, hi) =~= s.subrange(lo2, hi2));
}

/// Whether `s` holds nothing but whitespace.
pub fn is_blank(s: &str) -> (r: bool)
    ensures
        r == forall|i: int| 0 <= i < s@.len() ==> unicode_whitespace(#[trigger] s@[i]),
{
    let t = trim(s);
    let r = chars_of(t.as_str()).len() == 0;
    proof {
        let (lo, hi) = choose|lo: int, hi: int| trimmed(s@, lo, hi) && t@ == s@.subrange(lo, hi);
        if r {
            assert forall|i: int| 0 <= i < s@.len() implies unicode_whitespace(#[trigger] s@[i]) by {
                if i >= hi {
                } else if i < lo {
                } else {
                    assert(lo == hi);
                }
            }
        } else {
            assert(lo < hi);
            assert(!unicode_whitespace(s@[lo]));
        }
    }
    r
}

} // verus!
