//! Character-level text utilities with specifications: whitespace, trimming,
//! splitting, prefix and suffix tests, and decimal integers.
use vstd::prelude::*;

verus! {

/// A character is whitespace when it has the Unicode `White_Space` property.
pub open spec fn is_ws(c: char) -> bool {
    ||| ('\u{9}' <= c && c <= '\u{d}')
    ||| c == ' '
    ||| c == '\u{85}'
    ||| c == '\u{a0}'
    ||| c == '\u{1680}'
    ||| ('\u{2000}' <= c && c <= '\u{200a}')
    ||| c == '\u{2028}'
    ||| c == '\u{2029}'
    ||| c == '\u{202f}'
    ||| c == '\u{205f}'
    ||| c == '\u{3000}'
}

pub fn is_whitespace(c: char) -> (r: bool)
    ensures
        r == is_ws(c),
{
    ('\u{9}' <= c && c <= '\u{d}') || c == ' ' || c == '\u{85}' || c == '\u{a0}' || c
        == '\u{1680}' || ('\u{2000}' <= c && c <= '\u{200a}') || c == '\u{2028}' || c == '\u{2029}'
        || c == '\u{202f}' || c == '\u{205f}' || c == '\u{3000}'
}

/// The characters of a string slice, in order.
pub fn chars_of(s: &str) -> (v: Vec<char>)
    ensures
        v@ == s@,
{
    let mut v: Vec<char> = Vec::new();
    for c in it: s.chars()
        invariant
            it.seq() == s@,
            v@ == it.seq().take(it.index() as int),
    {
        v.push(c);
        assert(v@ =~= it.seq().take(it.index() + 1));
    }
    assert(v@ =~= s@);
    v
}

/// Builds a `String` from its characters (`String::from_iter`).
#[verifier::external_body]
pub(crate) fn string_of(v: Vec<char>) -> (s: String)
    ensures
        s@ == v@,
{
    String::from_iter(v)
}


/// The characters of `v` from position `lo` up to, not including, `hi`.
pub fn slice_chars(v: &Vec<char>, lo: usize, hi: usize) -> (r: Vec<char>)
    requires
        lo <= hi <= v@.len(),
    ensures
        r@ == v@.subrange(lo as int, hi as int),
{
    let mut r: Vec<char> = Vec::new();
    let mut i = lo;
    while i < hi
        invariant
            lo <= i <= hi <= v@.len(),
            r@ == v@.subrange(lo as int, i as int),
        decreases hi - i,
    {
        r.push(v[i]);
        i += 1;
        assert(r@ =~= v@.subrange(lo as int, i as int));
    }
    r
}

/// Whether two character sequences are equal.
pub fn chars_eq(a: &Vec<char>, b: &Vec<char>) -> (r: bool)
    ensures
        r == (a@ == b@),
{
    if a.len() != b.len() {
        return false;
    }
    let mut i: usize = 0;
    while i < a.len()
        invariant
            a@.len() == b@.len(),
            i <= a@.len(),
            forall|j: int| 0 <= j < i ==> a@[j] == b@[j],
        decreases a.len() - i,
    {
        if a[i] != b[i] {
            return false;
        }
        i += 1;
    }
    assert(a@ =~= b@);
    true
}

/// Whether a character sequence equals the characters of a string slice.
pub fn chars_eq_str(a: &Vec<char>, b: &str) -> (r: bool)
    ensures
        r == (a@ == b@),
{
    let bv = chars_of(b);
    chars_eq(a, &bv)
}

/// Whether two string slices hold the same characters.
pub fn str_eq(a: &str, b: &str) -> (r: bool)
    ensures
        r == (a@ == b@),
{
    let av = chars_of(a);
    chars_eq_str(&av, b)
}

/// `s` with its leading whitespace removed.
pub open spec fn trim_start(s: Seq<char>) -> Seq<char>
    decreases s.len(),
{
    if s.len() > 0 && is_ws(s[0]) {
        trim_start(s.drop_first())
    } else {
        s
    }
}

/// `s` with its trailing whitespace removed.
pub open spec fn trim_end(s: Seq<char>) -> Seq<char>
    decreases s.len(),
{
    if s.len() > 0 && is_ws(s.last()) {
        trim_end(s.drop_last())
    } else {
        s
    }
}

/// `s` with leading and trailing whitespace removed (`str::trim`).
pub open spec fn trim(s: Seq<char>) -> Seq<char> {
    trim_end(trim_start(s))
}

/// Leading and trailing whitespace removed.
pub fn trim_chars(v: &Vec<char>) -> (r: Vec<char>)
    ensures
        r@ == trim(v@),
{
    let mut i: usize = 0;
    assert(v@.skip(0) =~= v@);
    while i < v.len() && is_whitespace(v[i])
        invariant
            i <= v@.len(),
            trim_start(v@) == trim_start(v@.skip(i as int)),
        decreases v.len() - i,
    {
        assert(v@.skip(i as int).drop_first() =~= v@.skip(i + 1));
        i += 1;
    }
    let mut j: usize = v.len();
    assert(v@.skip(i as int) =~= v@.subrange(i as int, j as int));
    while j > i && is_whitespace(v[j - 1])
        invariant
            i <= j <= v@.len(),
            trim(v@) == trim_end(v@.subrange(i as int, j as int)),
        decreases j,
    {
        assert(v@.subrange(i as int, j as int).drop_last() =~= v@.subrange(i as int, j - 1));
        j -= 1;
    }
    slice_chars(v, i, j)
}

/// Whether `s` begins with `p`.
pub open spec fn starts_with(s: Seq<char>, p: Seq<char>) -> bool {
    p.len() <= s.len() && s.take(p.len() as int) == p
}

/// Whether `s` ends with `p`.
pub open spec fn ends_with(s: Seq<char>, p: Seq<char>) -> bool {
    p.len() <= s.len() && s.skip(s.len() - p.len()) == p
}

pub fn has_prefix(s: &Vec<char>, p: &Vec<char>) -> (r: bool)
    ensures
        r == starts_with(s@, p@),
{
    if p.len() > s.len() {
        return false;
    }
    let mut i: usize = 0;
    while i < p.len()
        invariant
            p@.len() <= s@.len(),
            i <= p@.len(),
            forall|j: int| 0 <= j < i ==> s@[j] == p@[j],
        decreases p.len() - i,
    {
        if s[i] != p[i] {
            assert(s@.take(p@.len() as int)[i as int] != p@[i as int]);
            return false;
        }
        i += 1;
    }
    assert(s@.take(p@.len() as int) =~= p@);
    true
}

pub fn has_suffix(s: &Vec<char>, p: &Vec<char>) -> (r: bool)
    ensures
        r == ends_with(s@, p@),
{
    if p.len() > s.len() {
        return false;
    }
    let off = s.len() - p.len();
    let mut i: usize = 0;
    while i < p.len()
        invariant
            p@.len() <= s@.len(),
            off + p@.len() == s@.len(),
            i <= p@.len(),
            forall|j: int| 0 <= j < i ==> s@[off + j] == p@[j],
        decreases p.len() - i,
    {
        assert(off + i < s.len());
        if s[off + i] != p[i] {
            assert(s@.skip(off as int)[i as int] != p@[i as int]);
            return false;
        }
        i += 1;
    }
    assert(s@.skip(off as int) =~= p@);
    true
}

/// `s` with every leading repetition of `p` removed (`str::trim_start_matches`).
pub open spec fn strip_prefix_all(s: Seq<char>, p: Seq<char>) -> Seq<char>
    decreases s.len(),
{
    if p.len() > 0 && starts_with(s, p) {
        strip_prefix_all(s.skip(p.len() as int), p)
    } else {
        s
    }
}

/// `s` with every trailing repetition of `p` removed (`str::trim_end_matches`).
pub open spec fn strip_suffix_all(s: Seq<char>, p: Seq<char>) -> Seq<char>
    decreases s.len(),
{
    if p.len() > 0 && ends_with(s, p) {
        strip_suffix_all(s.take(s.len() - p.len()), p)
    } else {
        s
    }
}

pub fn trim_start_matches(s: &Vec<char>, p: &Vec<char>) -> (r: Vec<char>)
    ensures
        r@ == strip_prefix_all(s@, p@),
{
    if p.len() == 0 {
        return slice_chars(s, 0, s.len());
    }
    let mut cur = slice_chars(s, 0, s.len());
    assert(s@.subrange(0, s@.len() as int) =~= s@);
    while has_prefix(&cur, p)
        invariant
            p@.len() > 0,
            strip_prefix_all(s@, p@) == strip_prefix_all(cur@, p@),
        decreases cur@.len(),
    {
        cur = slice_chars(&cur, p.len(), cur.len());
    }
    cur
}

pub fn trim_end_matches(s: &Vec<char>, p: &Vec<char>) -> (r: Vec<char>)
    ensures
        r@ == strip_suffix_all(s@, p@),
{
    if p.len() == 0 {
        return slice_chars(s, 0, s.len());
    }
    let mut cur = slice_chars(s, 0, s.len());
    assert(s@.subrange(0, s@.len() as int) =~= s@);
    while has_suffix(&cur, p)
        invariant
            p@.len() > 0,
            strip_suffix_all(s@, p@) == strip_suffix_all(cur@, p@),
        decreases cur@.len(),
    {
        cur = slice_chars(&cur, 0, cur.len() - p.len());
        proof {
            assert(cur@.len() < cur@.len() + p@.len());
        }
    }
    cur
}


/// The character sequences held by a vector of character vectors.
pub open spec fn views(v: Seq<Vec<char>>) -> Seq<Seq<char>> {
    v.map_values(|x: Vec<char>| x@)
}

/// The pieces of `s` between occurrences of `c` (`str::split` on a character).
pub open spec fn split_on(s: Seq<char>, c: char) -> Seq<Seq<char>>
    decreases s.len(),
{
    if s.len() == 0 {
        seq![Seq::<char>::empty()]
    } else {
        let r = split_on(s.drop_last(), c);
        if s.last() == c {
            r.push(Seq::<char>::empty())
        } else {
            r.update(r.len() - 1, r.last().push(s.last()))
        }
    }
}

pub proof fn lemma_split_on_nonempty(s: Seq<char>, c: char)
    ensures
        split_on(s, c).len() >= 1,
    decreases s.len(),
{
    if s.len() > 0 {
        lemma_split_on_nonempty(s.drop_last(), c);
    }
}

/// The lines of `s`: the pieces between newlines, without a final empty piece
/// (`str::lines`, up to a carriage return that ends a line).
pub open spec fn lines(s: Seq<char>) -> Seq<Seq<char>> {
    let p = split_on(s, '\n');
    if p.last().len() == 0 {
        p.drop_last()
    } else {
        p
    }
}

pub fn split_char(v: &Vec<char>, c: char) -> (r: Vec<Vec<char>>)
    ensures
        views(r@) == split_on(v@, c),
{
    let mut pieces: Vec<Vec<char>> = Vec::new();
    let mut cur: Vec<char> = Vec::new();
    let mut i: usize = 0;
    assert(v@.take(0) =~= Seq::<char>::empty());
    assert(views(pieces@).push(cur@) =~= split_on(v@.take(0), c));
    while i < v.len()
        invariant
            i <= v@.len(),
            views(pieces@).push(cur@) == split_on(v@.take(i as int), c),
        decreases v.len() - i,
    {
        let ghost before = v@.take(i as int);
        assert(v@.take(i + 1).drop_last() =~= before);
        proof {
            lemma_split_on_nonempty(before, c);
        }
        if v[i] == c {
            let done = cur;
            pieces.push(done);
            cur = Vec::new();
            assert(views(pieces@).push(cur@) =~= split_on(before, c).push(Seq::<char>::empty()));
        } else {
            let ghost old_pieces = pieces@;
            cur.push(v[i]);
            assert(views(pieces@).push(cur@) =~= split_on(before, c).update(
                split_on(before, c).len() - 1,
                split_on(before, c).last().push(v@[i as int]),
            ));
        }
        i += 1;
    }
    assert(v@.take(v@.len() as int) =~= v@);
    pieces.push(cur);
    assert(views(pieces@) =~= split_on(v@, c));
    pieces
}

/// The lines of a text, as character vectors.
pub fn lines_of(v: &Vec<char>) -> (r: Vec<Vec<char>>)
    ensures
        views(r@) == lines(v@),
{
    let mut p = split_char(v, '\n');
    proof {
        lemma_split_on_nonempty(v@, '\n');
    }
    let n = p.len();
    if p[n - 1].len() == 0 {
        let _ = p.pop();
        assert(views(p@) =~= split_on(v@, '\n').drop_last());
    }
    p
}

/// The maximal runs of non-whitespace characters of `s` (`str::split_whitespace`).
pub open spec fn words(s: Seq<char>) -> Seq<Seq<char>>
    decreases s.len(),
{
    if s.len() == 0 {
        Seq::<Seq<char>>::empty()
    } else {
        let w = words(s.drop_last());
        let c = s.last();
        if is_ws(c) {
            w
        } else if s.len() >= 2 && !is_ws(s[s.len() - 2]) {
            w.update(w.len() - 1, w.last().push(c))
        } else {
            w.push(seq![c])
        }
    }
}

pub proof fn lemma_words_last(s: Seq<char>)
    requires
        s.len() >= 1,
        !is_ws(s.last()),
    ensures
        words(s).len() >= 1,
    decreases s.len(),
{
    if s.len() >= 2 && !is_ws(s[s.len() - 2]) {
        assert(s.drop_last().last() == s[s.len() - 2]);
        lemma_words_last(s.drop_last());
    }
}

pub fn split_whitespace(v: &Vec<char>) -> (r: Vec<Vec<char>>)
    ensures
        views(r@) == words(v@),
{
    let mut done: Vec<Vec<char>> = Vec::new();
    let mut cur: Vec<char> = Vec::new();
    let mut i: usize = 0;
    assert(v@.take(0) =~= Seq::<char>::empty());
    assert(views(done@) =~= words(v@.take(0)));
    while i < v.len()
        invariant
            i <= v@.len(),
            cur@.len() > 0 <==> (i > 0 && !is_ws(v@[i - 1])),
            cur@.len() > 0 ==> views(done@).push(cur@) == words(v@.take(i as int)),
            cur@.len() == 0 ==> views(done@) == words(v@.take(i as int)),
        decreases v.len() - i,
    {
        let ghost before = v@.take(i as int);
        let ghost now = v@.take(i + 1);
        assert(now.drop_last() =~= before);
        assert(now.last() == v@[i as int]);
        if is_whitespace(v[i]) {
            if cur.len() > 0 {
                let w = cur;
                done.push(w);
                cur = Vec::new();
            }
            assert(views(done@) =~= words(now));
        } else {
            if cur.len() > 0 {
                proof {
                    lemma_words_last(before);
                    assert(now[now.len() - 2] == v@[i - 1]);
                }
                cur.push(v[i]);
                assert(views(done@).push(cur@) =~= words(now));
            } else {
                proof {
                    if i > 0 {
                        assert(now[now.len() - 2] == v@[i - 1]);
                    }
                }
                cur.push(v[i]);
                assert(cur@ =~= seq![v@[i as int]]);
                assert(!(now.len() >= 2 && !is_ws(now[now.len() - 2])));
                assert(words(now) == words(before).push(seq![v@[i as int]]));
                assert(views(done@).push(cur@) =~= words(now));
            }
        }
        i += 1;
    }
    assert(v@.take(v@.len() as int) =~= v@);
    if cur.len() > 0 {
        done.push(cur);
    }
    assert(views(done@) =~= words(v@));
    done
}


pub open spec fn is_digit(c: char) -> bool {
    '0' <= c && c <= '9'
}

/// The value of a decimal digit character.
pub open spec fn digit_val(c: char) -> nat {
    (c as int - '0' as int) as nat
}

/// The decimal digit character for a value below ten.
pub open spec fn digit_char(d: nat) -> char {
    (d + '0' as int) as char
}

pub open spec fn all_digits(s: Seq<char>) -> bool {
    forall|i: int| 0 <= i < s.len() ==> is_digit(#[trigger] s[i])
}

/// The number that a sequence of decimal digits denotes.
pub open spec fn digits_value(s: Seq<char>) -> nat
    decreases s.len(),
{
    if s.len() == 0 {
        0
    } else {
        digits_value(s.drop_last()) * 10 + digit_val(s.last())
    }
}

/// What `str::parse` gives for an unsigned integer type whose largest value is
/// `max`: an optional `+`, then one or more decimal digits denoting at most `max`.
pub open spec fn parse_unsigned(s: Seq<char>, max: nat) -> Option<nat> {
    let d = if s.len() > 0 && s[0] == '+' {
        s.drop_first()
    } else {
        s
    };
    if d.len() > 0 && all_digits(d) && digits_value(d) <= max {
        Some(digits_value(d))
    } else {
        None
    }
}

/// The decimal representation of `n`, without leading zeros.
pub open spec fn decimal(n: nat) -> Seq<char>
    decreases n,
{
    if n < 10 {
        seq![digit_char(n)]
    } else {
        decimal(n / 10).push(digit_char(n % 10))
    }
}

proof fn lemma_digits_value_prefix(s: Seq<char>, k: int)
    requires
        0 <= k <= s.len(),
    ensures
        digits_value(s) >= digits_value(s.take(k)),
    decreases s.len(),
{
    if k < s.len() {
        assert(s.drop_last().take(k) =~= s.take(k));
        lemma_digits_value_prefix(s.drop_last(), k);
    } else {
        assert(s.take(k) =~= s);
    }
}

/// `str::parse::<u64>` with the bound `max` in place of `u64::MAX`.
pub fn parse_bounded(v: &Vec<char>, max: u64) -> (r: Option<u64>)
    ensures
        r matches Some(n) ==> parse_unsigned(v@, max as nat) == Some(n as nat),
        r is None ==> parse_unsigned(v@, max as nat) is None,
{
    let start: usize = if v.len() > 0 && v[0] == '+' {
        1
    } else {
        0
    };
    let ghost d = if v@.len() > 0 && v@[0] == '+' {
        v@.drop_first()
    } else {
        v@
    };
    assert(d =~= v@.skip(start as int));
    if start == v.len() {
        return None;
    }
    let mut value: u64 = 0;
    let mut i = start;
    assert(d.take(0) =~= Seq::<char>::empty());
    while i < v.len()
        invariant
            start <= i <= v@.len(),
            d == v@.skip(start as int),
            d == (if v@.len() > 0 && v@[0] == '+' { v@.drop_first() } else { v@ }),
            value as nat == digits_value(d.take(i - start)),
            value <= max,
            all_digits(d.take(i - start)),
        decreases v.len() - i,
    {
        let c = v[i];
        assert(d[i - start] == c);
        if !('0' <= c && c <= '9') {
            assert(!is_digit(d[i - start]));
            assert(!all_digits(d));
            return None;
        }
        let dv = (c as u32 - '0' as u32) as u64;
        assert(d.take(i - start + 1).drop_last() =~= d.take(i - start));
        assert(d.take(i - start + 1).last() == c);
        assert(dv == digit_val(c));
        assert(digits_value(d.take(i - start + 1)) == value * 10 + dv);
        let next_opt = value.checked_mul(10);
        match next_opt {
            None => {
                proof {
                    lemma_digits_value_prefix(d, i - start + 1);
                }
                return None;
            }
            Some(m) => {
                match m.checked_add(dv) {
                    None => {
                        proof {
                            lemma_digits_value_prefix(d, i - start + 1);
                        }
                        return None;
                    }
                    Some(nv) => {
                        if nv > max {
                            proof {
                                if all_digits(d) {
                                    lemma_digits_value_prefix(d, i - start + 1);
                                }
                            }
                            return None;
                        }
                        value = nv;
                    }
                }
            }
        }
        i += 1;
        assert(all_digits(d.take(i - start)));
    }
    assert(d.take(i - start) =~= d);
    Some(value)
}

pub fn parse_u32(v: &Vec<char>) -> (r: Option<u32>)
    ensures
        r matches Some(n) ==> parse_unsigned(v@, u32::MAX as nat) == Some(n as nat),
        r is None ==> parse_unsigned(v@, u32::MAX as nat) is None,
{
    match parse_bounded(v, u32::MAX as u64) {
        Some(n) => Some(n as u32),
        None => None,
    }
}

pub fn parse_usize(v: &Vec<char>) -> (r: Option<usize>)
    ensures
        r matches Some(n) ==> parse_unsigned(v@, usize::MAX as nat) == Some(n as nat),
        r is None ==> parse_unsigned(v@, usize::MAX as nat) is None,
{
    match parse_bounded(v, usize::MAX as u64) {
        Some(n) => Some(n as usize),
        None => None,
    }
}

pub fn digit_to_char(d: u64) -> (c: char)
    requires
        d < 10,
    ensures
        c == digit_char(d as nat),
{
    ((d as u8) + 48u8) as char
}

/// The decimal representation of `n`.
pub fn decimal_chars(n: u64) -> (r: Vec<char>)
    ensures
        r@ == decimal(n as nat),
    decreases n,
{
    if n < 10 {
        let mut r: Vec<char> = Vec::new();
        r.push(digit_to_char(n));
        assert(r@ =~= decimal(n as nat));
        r
    } else {
        let mut r = decimal_chars(n / 10);
        r.push(digit_to_char(n % 10));
        r
    }
}

/// The decimal representation of `n` is all digits and denotes `n`.
pub proof fn lemma_decimal(n: nat)
    ensures
        all_digits(decimal(n)),
        decimal(n).len() >= 1,
        digits_value(decimal(n)) == n,
        decimal(n)[0] != '+',
    decreases n,
{
    assert(digit_val(digit_char(n % 10)) == n % 10);
    if n >= 10 {
        lemma_decimal(n / 10);
        assert(decimal(n).drop_last() =~= decimal(n / 10));
        assert(decimal(n).last() == digit_char(n % 10));
        assert(digits_value(decimal(n)) == digits_value(decimal(n / 10)) * 10 + n % 10);
        assert((n / 10) * 10 + n % 10 == n);
    } else {
        assert(digit_val(digit_char(n)) == n);
        assert(decimal(n).drop_last() =~= Seq::<char>::empty());
        assert(digits_value(decimal(n)) == digits_value(Seq::<char>::empty()) * 10 + n);
    }
}

/// Parsing the decimal representation of a value gives the value back.
pub proof fn lemma_parse_decimal(n: nat, max: nat)
    requires
        n <= max,
    ensures
        parse_unsigned(decimal(n), max) == Some(n),
{
    lemma_decimal(n);
}


/// The ASCII lowercase form of a character; other characters are unchanged.
pub open spec fn ascii_lower(c: char) -> char {
    if 'A' <= c && c <= 'Z' {
        ((c as int) + 32) as char
    } else {
        c
    }
}

/// Equality up to ASCII case (`str::eq_ignore_ascii_case`).
pub open spec fn eq_ignore_ascii_case(a: Seq<char>, b: Seq<char>) -> bool {
    a.len() == b.len() && forall|i: int| 0 <= i < a.len() ==> ascii_lower(#[trigger] a[i])
        == ascii_lower(b[i])
}

pub fn to_ascii_lower(c: char) -> (r: char)
    ensures
        r == ascii_lower(c),
{
    if 'A' <= c && c <= 'Z' {
        let u = (c as u32 + 32) as u8;
        u as char
    } else {
        c
    }
}

pub fn chars_eq_ignore_ascii_case(a: &Vec<char>, b: &Vec<char>) -> (r: bool)
    ensures
        r == eq_ignore_ascii_case(a@, b@),
{
    if a.len() != b.len() {
        return false;
    }
    let mut i: usize = 0;
    while i < a.len()
        invariant
            a@.len() == b@.len(),
            i <= a@.len(),
            forall|j: int| 0 <= j < i ==> ascii_lower(#[trigger] a@[j]) == ascii_lower(b@[j]),
        decreases a.len() - i,
    {
        if to_ascii_lower(a[i]) != to_ascii_lower(b[i]) {
            return false;
        }
        i += 1;
    }
    true
}

/// Whether `needle` occurs in `hay` at position `i`.
pub open spec fn occurs_at(hay: Seq<char>, needle: Seq<char>, i: int) -> bool {
    0 <= i && i + needle.len() <= hay.len() && hay.subrange(i, i + needle.len()) == needle
}

/// Whether `needle` occurs in `hay` (`str::contains`).
pub open spec fn contains_seq(hay: Seq<char>, needle: Seq<char>) -> bool {
    exists|i: int| occurs_at(hay, needle, i)
}

pub fn contains_chars(hay: &Vec<char>, needle: &Vec<char>) -> (r: bool)
    ensures
        r == contains_seq(hay@, needle@),
{
    if needle.len() > hay.len() {
        return false;
    }
    if needle.len() == 0 {
        assert(hay@.subrange(0, 0) =~= needle@);
        assert(occurs_at(hay@, needle@, 0));
        return true;
    }
    let last = hay.len() - needle.len();
    let mut i: usize = 0;
    while i <= last
        invariant
            0 < needle@.len() <= hay@.len(),
            last + needle@.len() == hay@.len(),
            i <= last + 1,
            forall|k: int| 0 <= k < i ==> !occurs_at(hay@, needle@, k),
        decreases last + 1 - i,
    {
        let mut j: usize = 0;
        let mut ok = true;
        while j < needle.len()
            invariant
                needle@.len() <= hay@.len(),
                i <= last,
                last + needle@.len() == hay@.len(),
                j <= needle@.len(),
                ok ==> forall|m: int| 0 <= m < j ==> hay@[i + m] == needle@[m],
                !ok ==> !occurs_at(hay@, needle@, i as int),
            decreases needle.len() - j,
        {
            assert(i + j < hay.len());
            if hay[i + j] != needle[j] {
                assert(hay@.subrange(i as int, i + needle@.len())[j as int] != needle@[j as int]);
                ok = false;
            }
            j += 1;
        }
        if ok {
            assert(hay@.subrange(i as int, i + needle@.len()) =~= needle@);
            assert(occurs_at(hay@, needle@, i as int));
            return true;
        }
        assert(i < hay.len());
        i += 1;
    }
    assert forall|k: int| !occurs_at(hay@, needle@, k) by {
        if 0 <= k && k + needle@.len() <= hay@.len() {
            assert(k < i);
        }
    }
    false
}

pub open spec fn is_sign(c: char) -> bool {
    c == '+' || c == '-'
}

/// The first position at or after `i` that does not hold a decimal digit.
pub open spec fn digit_run(s: Seq<char>, i: int) -> int
    decreases s.len() - i,
{
    if 0 <= i < s.len() && is_digit(s[i]) {
        digit_run(s, i + 1)
    } else {
        i
    }
}

pub fn scan_digits(v: &Vec<char>, i: usize) -> (j: usize)
    requires
        i <= v@.len(),
    ensures
        j as int == digit_run(v@, i as int),
        i <= j <= v@.len(),
{
    let mut j = i;
    while j < v.len() && '0' <= v[j] && v[j] <= '9'
        invariant
            i <= j <= v@.len(),
            digit_run(v@, i as int) == digit_run(v@, j as int),
        decreases v.len() - j,
    {
        j += 1;
    }
    j
}

/// An exponent: an optional sign, then one or more digits.
pub open spec fn is_exponent(t: Seq<char>) -> bool {
    let k: int = if t.len() > 0 && is_sign(t[0]) {
        1
    } else {
        0
    };
    let d = digit_run(t, k);
    d > k && d == t.len()
}

/// Position `i` ends `s`, or starts an exponent that runs to the end of `s`.
pub open spec fn exponent_or_end(s: Seq<char>, i: int) -> bool {
    i == s.len() || (0 <= i < s.len() && (s[i] == 'e' || s[i] == 'E') && is_exponent(
        s.skip(i + 1),
    ))
}

/// The position where the digits and point of a decimal number end.
pub open spec fn mantissa_end(s: Seq<char>) -> int {
    let a = digit_run(s, 0);
    if a < s.len() && s[a] == '.' {
        digit_run(s, a + 1)
    } else {
        a
    }
}

/// A decimal number: digits with an optional point, at least one digit, and an
/// optional exponent.
pub open spec fn is_decimal_number(s: Seq<char>) -> bool {
    let a = digit_run(s, 0);
    let b = mantissa_end(s);
    (a > 0 || b > a + 1) && exponent_or_end(s, b)
}

/// The text without a leading sign.
pub open spec fn unsigned_part(s: Seq<char>) -> Seq<char> {
    if s.len() > 0 && is_sign(s[0]) {
        s.drop_first()
    } else {
        s
    }
}

/// The grammar that `str::parse::<f64>` accepts, as its documentation gives it:
/// an optional sign, then `inf`, `infinity` or `nan` in any ASCII case, or a
/// decimal number.
pub open spec fn is_float_literal(s: Seq<char>) -> bool {
    let body = unsigned_part(s);
    ||| eq_ignore_ascii_case(body, "inf"@)
    ||| eq_ignore_ascii_case(body, "infinity"@)
    ||| eq_ignore_ascii_case(body, "nan"@)
    ||| is_decimal_number(body)
}

/// A decimal number literal whose digits are all zero.
pub open spec fn is_zero_literal(s: Seq<char>) -> bool {
    let body = unsigned_part(s);
    &&& is_decimal_number(body)
    &&& forall|i: int| 0 <= i < mantissa_end(body) ==> (#[trigger] body[i] == '0' || body[i] == '.')
}

pub fn unsigned_part_chars(v: &Vec<char>) -> (r: Vec<char>)
    ensures
        r@ == unsigned_part(v@),
{
    if v.len() > 0 && (v[0] == '+' || v[0] == '-') {
        slice_chars(v, 1, v.len())
    } else {
        slice_chars(v, 0, v.len())
    }
}

fn exponent_chars(t: &Vec<char>) -> (r: bool)
    ensures
        r == is_exponent(t@),
{
    let k: usize = if t.len() > 0 && (t[0] == '+' || t[0] == '-') {
        1
    } else {
        0
    };
    let d = scan_digits(t, k);
    d > k && d == t.len()
}

fn exponent_or_end_chars(s: &Vec<char>, i: usize) -> (r: bool)
    requires
        i <= s@.len(),
    ensures
        r == exponent_or_end(s@, i as int),
{
    if i == s.len() {
        true
    } else if s[i] == 'e' || s[i] == 'E' {
        let t = slice_chars(s, i + 1, s.len());
        assert(t@ =~= s@.skip(i + 1));
        exponent_chars(&t)
    } else {
        false
    }
}

pub fn mantissa_end_chars(s: &Vec<char>) -> (r: usize)
    ensures
        r as int == mantissa_end(s@),
        r <= s@.len(),
{
    let a = scan_digits(s, 0);
    if a < s.len() && s[a] == '.' {
        scan_digits(s, a + 1)
    } else {
        a
    }
}

pub fn decimal_number_chars(s: &Vec<char>) -> (r: bool)
    ensures
        r == is_decimal_number(s@),
{
    let a = scan_digits(s, 0);
    let b = mantissa_end_chars(s);
    (a > 0 || b > a + 1) && exponent_or_end_chars(s, b)
}

/// Whether `v` is text that `str::parse::<f64>` accepts.
pub fn float_literal(v: &Vec<char>) -> (r: bool)
    ensures
        r == is_float_literal(v@),
{
    let body = unsigned_part_chars(v);
    let inf = chars_of("inf");
    let infinity = chars_of("infinity");
    let nan = chars_of("nan");
    chars_eq_ignore_ascii_case(&body, &inf) || chars_eq_ignore_ascii_case(&body, &infinity)
        || chars_eq_ignore_ascii_case(&body, &nan) || decimal_number_chars(&body)
}

/// Whether `v` is a decimal number literal whose digits are all zero.
pub fn zero_literal(v: &Vec<char>) -> (r: bool)
    ensures
        r == is_zero_literal(v@),
{
    let body = unsigned_part_chars(v);
    if !decimal_number_chars(&body) {
        return false;
    }
    let m = mantissa_end_chars(&body);
    let mut i: usize = 0;
    while i < m
        invariant
            m as int == mantissa_end(body@),
            body@ == unsigned_part(v@),
            is_decimal_number(body@),
            m <= body@.len(),
            i <= m,
            forall|k: int| 0 <= k < i ==> (#[trigger] body@[k] == '0' || body@[k] == '.'),
        decreases m - i,
    {
        if body[i] != '0' && body[i] != '.' {
            assert(!(body@[i as int] == '0' || body@[i as int] == '.'));
            return false;
        }
        i += 1;
    }
    true
}


/// Appends the characters of `w` to `v`.
pub fn append_chars(v: &mut Vec<char>, w: &Vec<char>)
    ensures
        final(v)@ == old(v)@ + w@,
{
    let mut i: usize = 0;
    while i < w.len()
        invariant
            i <= w@.len(),
            v@ == old(v)@ + w@.take(i as int),
        decreases w.len() - i,
    {
        v.push(w[i]);
        i += 1;
        assert(v@ =~= old(v)@ + w@.take(i as int));
    }
    assert(w@.take(w@.len() as int) =~= w@);
}

/// The concatenation of two string slices.
pub fn concat_str(a: &str, b: &str) -> (r: String)
    ensures
        r@ == a@ + b@,
{
    let mut v = chars_of(a);
    let w = chars_of(b);
    append_chars(&mut v, &w);
    string_of(v)
}

/// The pieces joined with `sep` between each two.
pub open spec fn join(parts: Seq<Seq<char>>, sep: Seq<char>) -> Seq<char>
    decreases parts.len(),
{
    if parts.len() == 0 {
        Seq::empty()
    } else if parts.len() == 1 {
        parts[0]
    } else {
        join(parts.drop_last(), sep) + sep + parts.last()
    }
}

/// The parts joined, with `sep` between neighbours.
pub fn join_chars(parts: &Vec<Vec<char>>, sep: &Vec<char>) -> (r: Vec<char>)
    ensures
        r@ == join(parts@.map_values(|x: Vec<char>| x@), sep@),
{
    let ghost pv = parts@.map_values(|x: Vec<char>| x@);
    let mut r: Vec<char> = Vec::new();
    let mut i: usize = 0;
    assert(pv.take(0) =~= Seq::<Seq<char>>::empty());
    while i < parts.len()
        invariant
            pv == parts@.map_values(|x: Vec<char>| x@),
            i <= parts@.len(),
            r@ == join(pv.take(i as int), sep@),
        decreases parts.len() - i,
    {
        assert(pv.take(i + 1).drop_last() =~= pv.take(i as int));
        if i > 0 {
            append_chars(&mut r, sep);
        }
        append_chars(&mut r, &parts[i]);
        i += 1;
        assert(pv.take(i as int).last() == parts@[i - 1]@);
        proof {
            if i == 1 {
                assert(r@ =~= join(pv.take(i as int), sep@));
            }
        }
    }
    assert(pv.take(parts@.len() as int) =~= pv);
    r
}

/// Whether text comes strictly before other text, character by character
/// (the order of `String`).
pub open spec fn text_lt(a: Seq<char>, b: Seq<char>) -> bool
    decreases a.len(),
{
    if a.len() == 0 {
        b.len() > 0
    } else if b.len() == 0 {
        false
    } else if a[0] != b[0] {
        a[0] < b[0]
    } else {
        text_lt(a.drop_first(), b.drop_first())
    }
}

/// Whether text comes before other text or equals it.
pub open spec fn text_le(a: Seq<char>, b: Seq<char>) -> bool {
    a == b || text_lt(a, b)
}

pub proof fn lemma_text_lt_irreflexive(a: Seq<char>)
    ensures
        !text_lt(a, a),
    decreases a.len(),
{
    if a.len() > 0 {
        lemma_text_lt_irreflexive(a.drop_first());
    }
}

pub proof fn lemma_text_lt_asymmetric(a: Seq<char>, b: Seq<char>)
    ensures
        !(text_lt(a, b) && text_lt(b, a)),
    decreases a.len(),
{
    if a.len() > 0 && b.len() > 0 && a[0] == b[0] {
        lemma_text_lt_asymmetric(a.drop_first(), b.drop_first());
    }
}

pub proof fn lemma_text_lt_transitive(a: Seq<char>, b: Seq<char>, c: Seq<char>)
    requires
        text_lt(a, b),
        text_lt(b, c),
    ensures
        text_lt(a, c),
    decreases a.len(),
{
    if a.len() > 0 && b.len() > 0 && c.len() > 0 && a[0] == b[0] && b[0] == c[0] {
        lemma_text_lt_transitive(a.drop_first(), b.drop_first(), c.drop_first());
    }
}

pub proof fn lemma_text_lt_total(a: Seq<char>, b: Seq<char>)
    ensures
        a == b || text_lt(a, b) || text_lt(b, a),
    decreases a.len(),
{
    if a.len() > 0 && b.len() > 0 && a[0] == b[0] {
        lemma_text_lt_total(a.drop_first(), b.drop_first());
        if a.drop_first() == b.drop_first() {
            assert(a =~= seq![a[0]] + a.drop_first());
            assert(b =~= seq![b[0]] + b.drop_first());
        }
    } else if a.len() == 0 && b.len() == 0 {
        assert(a =~= b);
    }
}

/// Whether `a` comes strictly before `b` (the order of `String`).
pub fn text_less(a: &Vec<char>, b: &Vec<char>) -> (r: bool)
    ensures
        r == text_lt(a@, b@),
{
    let mut i: usize = 0;
    assert(a@.skip(0) =~= a@);
    assert(b@.skip(0) =~= b@);
    while i < a.len() && i < b.len() && a[i] == b[i]
        invariant
            i <= a@.len(),
            i <= b@.len(),
            a@.take(i as int) == b@.take(i as int),
            text_lt(a@, b@) == text_lt(a@.skip(i as int), b@.skip(i as int)),
        decreases a.len() - i,
    {
        assert(a@.skip(i as int).drop_first() =~= a@.skip(i + 1));
        assert(b@.skip(i as int).drop_first() =~= b@.skip(i + 1));
        assert(a@.take(i + 1) =~= a@.take(i as int).push(a@[i as int]));
        assert(b@.take(i + 1) =~= b@.take(i as int).push(b@[i as int]));
        i += 1;
    }
    if i == a.len() {
        i < b.len()
    } else if i == b.len() {
        false
    } else {
        a[i] < b[i]
    }
}

/// Whether a sequence of texts is in nondecreasing order.
pub open spec fn texts_sorted(s: Seq<Seq<char>>) -> bool {
    forall|i: int, j: int| 0 <= i < j < s.len() ==> text_le(s[i], s[j])
}

/// The texts in nondecreasing order.
pub fn sort_texts(v: Vec<Vec<char>>) -> (r: Vec<Vec<char>>)
    ensures
        texts_sorted(views(r@)),
        views(r@).to_multiset() == views(v@).to_multiset(),
        views(r@) == sorted_of(views(v@)),
{
    broadcast use vstd::seq_lib::group_to_multiset_ensures;
    broadcast use vstd::multiset::group_multiset_axioms;

    let ghost orig = views(v@);
    let mut src = v;
    let mut r: Vec<Vec<char>> = Vec::new();
    assert(views(r@) =~= Seq::<Seq<char>>::empty());
    assert(views(r@).to_multiset() =~= vstd::multiset::Multiset::<Seq<char>>::empty());
    assert(views(r@).to_multiset().add(views(src@).to_multiset()) =~= orig.to_multiset());
    while src.len() > 0
        invariant
            texts_sorted(views(r@)),
            views(r@).to_multiset().add(views(src@).to_multiset()) == orig.to_multiset(),
        decreases src.len(),
    {
        let ghost before_src = views(src@);
        let ghost before_r = views(r@);
        let x = src.pop().unwrap();
        assert(before_src =~= views(src@).push(x@));
        let mut p: usize = 0;
        while p < r.len() && !text_less(&x, &r[p])
            invariant
                p <= r@.len(),
                before_r == views(r@),
                forall|k: int| 0 <= k < p ==> text_le(#[trigger] before_r[k], x@),
            decreases r.len() - p,
        {
            proof {
                lemma_text_lt_total(x@, r@[p as int]@);
            }
            p += 1;
        }
        proof {
            if p < r@.len() {
                assert forall|k: int| p <= k < before_r.len() implies text_lt(x@, #[trigger] before_r[k]) by {
                    assert(text_le(before_r[p as int], before_r[k]));
                    if before_r[p as int] != before_r[k] {
                        lemma_text_lt_transitive(x@, before_r[p as int], before_r[k]);
                    }
                }
            }
        }
        r.insert(p, x);
        let ghost after_r = views(r@);
        assert(after_r =~= before_r.insert(p as int, x@));
        assert(texts_sorted(after_r)) by {
            assert forall|i: int, j: int| 0 <= i < j < after_r.len() implies text_le(after_r[i], after_r[j]) by {
                if j < p {
                    assert(after_r[i] == before_r[i] && after_r[j] == before_r[j]);
                } else if j == p {
                    assert(after_r[i] == before_r[i]);
                } else if i == p {
                    assert(after_r[j] == before_r[j - 1]);
                    assert(text_lt(x@, before_r[j - 1]));
                } else if i < p {
                    assert(after_r[i] == before_r[i] && after_r[j] == before_r[j - 1]);
                } else {
                    assert(after_r[i] == before_r[i - 1] && after_r[j] == before_r[j - 1]);
                }
            }
        }
        proof {
            vstd::seq_lib::to_multiset_insert(before_r, p as int, x@);
            vstd::seq_lib::to_multiset_build(views(src@), x@);
        }
        assert(views(r@).to_multiset().add(views(src@).to_multiset()) =~= before_r.to_multiset().add(
            before_src.to_multiset(),
        ));
    }
    assert(views(src@) =~= Seq::<Seq<char>>::empty());
    assert(views(r@).to_multiset().add(views(src@).to_multiset()) =~= views(r@).to_multiset());
    proof {
        lemma_sorted_of(orig, views(r@));
    }
    r
}

/// The texts of `s` in nondecreasing order.
pub open spec fn sorted_of(s: Seq<Seq<char>>) -> Seq<Seq<char>> {
    choose|t: Seq<Seq<char>>| texts_sorted(t) && t.to_multiset() == s.to_multiset()
}

/// Two sorted sequences of the same texts are equal.
pub proof fn lemma_sorted_unique(a: Seq<Seq<char>>, b: Seq<Seq<char>>)
    requires
        texts_sorted(a),
        texts_sorted(b),
        a.to_multiset() == b.to_multiset(),
    ensures
        a == b,
    decreases a.len(),
{
    vstd::seq_lib::to_multiset_len(a);
    vstd::seq_lib::to_multiset_len(b);
    if a.len() == 0 {
        assert(a =~= b);
    } else {
        let n = a.len() - 1;
        let x = a[n];
        let y = b[n];
        vstd::seq_lib::to_multiset_contains(a, y);
        vstd::seq_lib::to_multiset_contains(b, x);
        vstd::seq_lib::to_multiset_contains(a, x);
        vstd::seq_lib::to_multiset_contains(b, y);
        assert(a.contains(x)) by {
            assert(a[n] == x);
        }
        assert(b.contains(y)) by {
            assert(b[n] == y);
        }
        assert(b.contains(x));
        assert(a.contains(y));
        let i = choose|i: int| 0 <= i < b.len() && b[i] == x;
        let j = choose|j: int| 0 <= j < a.len() && a[j] == y;
        assert(text_le(x, y)) by {
            if i < n {
                assert(text_le(b[i], b[n]));
            }
        }
        assert(text_le(y, x)) by {
            if j < n {
                assert(text_le(a[j], a[n]));
            }
        }
        lemma_text_lt_asymmetric(x, y);
        assert(x == y);
        vstd::seq_lib::to_multiset_remove(a, n);
        vstd::seq_lib::to_multiset_remove(b, n);
        assert(a.remove(n) =~= a.drop_last());
        assert(b.remove(n) =~= b.drop_last());
        lemma_sorted_unique(a.drop_last(), b.drop_last());
        assert forall|k: int| 0 <= k < a.len() implies a[k] == b[k] by {
            if k < n {
                assert(a[k] == a.drop_last()[k]);
                assert(b[k] == b.drop_last()[k]);
            }
        }
        assert(a =~= b);
    }
}

/// The sorted texts of `s` are the one sorted arrangement of them.
pub proof fn lemma_sorted_of(s: Seq<Seq<char>>, t: Seq<Seq<char>>)
    requires
        texts_sorted(t),
        t.to_multiset() == s.to_multiset(),
    ensures
        sorted_of(s) == t,
{
    let u = sorted_of(s);
    assert(texts_sorted(u) && u.to_multiset() == s.to_multiset());
    lemma_sorted_unique(u, t);
}

/// `0` is a zero literal.
pub proof fn lemma_zero_text_is_zero()
    ensures
        is_zero_literal("0"@),
{
    reveal_strlit("0");
    let s = "0"@;
    assert(unsigned_part(s) == s);
    assert(is_digit(s[0]));
    assert(digit_run(s, 1) == 1);
    assert(digit_run(s, 0) == 1);
    assert(mantissa_end(s) == 1);
}

/// Text without the character `c` is a single piece when split on `c`.
pub proof fn lemma_split_on_free(x: Seq<char>, c: char)
    requires
        !x.contains(c),
    ensures
        split_on(x, c) == seq![x],
    decreases x.len(),
{
    if x.len() > 0 {
        let y = x.drop_last();
        assert(!y.contains(c)) by {
            if y.contains(c) {
                let k = choose|k: int| 0 <= k < y.len() && y[k] == c;
                assert(x[k] == c);
            }
        }
        lemma_split_on_free(y, c);
        assert(x.last() != c) by {
            assert(x[x.len() - 1] == x.last());
        }
        assert(y.push(x.last()) =~= x);
    } else {
        assert(x =~= Seq::<char>::empty());
    }
}

/// Appending text without `c` extends the last piece.
pub proof fn lemma_split_on_extend(s: Seq<char>, l: Seq<char>, c: char)
    requires
        !l.contains(c),
    ensures
        split_on(s + l, c) == split_on(s, c).update(
            split_on(s, c).len() - 1,
            split_on(s, c).last() + l,
        ),
    decreases l.len(),
{
    lemma_split_on_nonempty(s, c);
    if l.len() == 0 {
        assert(s + l =~= s);
        assert(split_on(s, c).last() + l =~= split_on(s, c).last());
        assert(split_on(s, c).update(split_on(s, c).len() - 1, split_on(s, c).last() + l) =~= split_on(
            s,
            c,
        ));
    } else {
        let l0 = l.drop_last();
        assert(!l0.contains(c)) by {
            if l0.contains(c) {
                let k = choose|k: int| 0 <= k < l0.len() && l0[k] == c;
                assert(l[k] == c);
            }
        }
        lemma_split_on_extend(s, l0, c);
        assert((s + l).drop_last() =~= s + l0);
        assert((s + l).last() == l.last());
        assert(l.last() != c) by {
            assert(l[l.len() - 1] == l.last());
        }
        let pieces = split_on(s, c);
        let longer = split_on(s + l0, c);
        assert(longer.len() == pieces.len());
        assert(longer.last() == pieces.last() + l0);
        assert((pieces.last() + l0).push(l.last()) =~= pieces.last() + l);
        assert(split_on(s + l, c) == longer.update(longer.len() - 1, longer.last().push(l.last())));
        assert(split_on(s + l, c) =~= pieces.update(pieces.len() - 1, pieces.last() + l));
    }
}

/// A separator splits the text into the pieces of each side.
pub proof fn lemma_split_on_concat(x: Seq<char>, y: Seq<char>, c: char)
    ensures
        split_on(x + seq![c] + y, c) == split_on(x, c) + split_on(y, c),
    decreases y.len(),
{
    lemma_split_on_nonempty(x, c);
    if y.len() == 0 {
        assert(x + seq![c] + y =~= x.push(c));
        assert((x.push(c)).drop_last() =~= x);
        assert(split_on(x, c) + split_on(y, c) =~= split_on(x, c).push(Seq::<char>::empty()));
    } else {
        let y0 = y.drop_last();
        lemma_split_on_concat(x, y0, c);
        lemma_split_on_nonempty(y0, c);
        assert((x + seq![c] + y).drop_last() =~= x + seq![c] + y0);
        assert((x + seq![c] + y).last() == y.last());
        if y.last() == c {
            assert(split_on(x + seq![c] + y, c) =~= split_on(x, c) + split_on(y, c));
        } else {
            assert(split_on(x + seq![c] + y, c) =~= split_on(x, c) + split_on(y, c));
        }
    }
}

/// Whitespace between two texts separates their words.
pub proof fn lemma_words_concat(x: Seq<char>, w: char, y: Seq<char>)
    requires
        is_ws(w),
    ensures
        words(x + seq![w] + y) == words(x) + words(y),
    decreases y.len(),
{
    if y.len() == 0 {
        assert(x + seq![w] + y =~= x.push(w));
        assert(x.push(w).drop_last() =~= x);
        assert(words(x) + words(y) =~= words(x));
    } else {
        let y0 = y.drop_last();
        lemma_words_concat(x, w, y0);
        let s = x + seq![w] + y;
        assert(s.drop_last() =~= x + seq![w] + y0);
        assert(s.last() == y.last());
        if y.len() >= 2 {
            assert(s[s.len() - 2] == y[y.len() - 2]);
        } else {
            assert(s[s.len() - 2] == w);
        }
        if !is_ws(y.last()) && y.len() >= 2 && !is_ws(y[y.len() - 2]) {
            assert(y0.last() == y[y.len() - 2]);
            lemma_words_last(y0);
        }
        assert(words(s) =~= words(x) + words(y));
    }
}

/// A nonempty text without whitespace is one word.
pub proof fn lemma_words_single(x: Seq<char>)
    requires
        x.len() > 0,
        forall|i: int| 0 <= i < x.len() ==> !is_ws(#[trigger] x[i]),
    ensures
        words(x) == seq![x],
    decreases x.len(),
{
    assert(!is_ws(x[x.len() - 1]));
    if x.len() == 1 {
        assert(x.drop_last() =~= Seq::<char>::empty());
        assert(words(x.drop_last()) =~= Seq::<Seq<char>>::empty());
        assert(x =~= seq![x[0]]);
        assert(words(x) =~= seq![x]);
    } else {
        let x0 = x.drop_last();
        assert forall|i: int| 0 <= i < x0.len() implies !is_ws(#[trigger] x0[i]) by {
            assert(x0[i] == x[i]);
        }
        lemma_words_single(x0);
        assert(x[x.len() - 2] == x0[x0.len() - 1]);
        assert(!is_ws(x[x.len() - 2]));
        assert(x0.push(x.last()) =~= x);
        assert(words(x) =~= seq![x]);
    }
}

/// Trimming text that neither starts nor ends with whitespace keeps it.
pub proof fn lemma_trim_plain(x: Seq<char>)
    requires
        x.len() > 0,
        !is_ws(x[0]),
        !is_ws(x.last()),
    ensures
        trim(x) == x,
{
}

/// Trimming a space before plain text.
pub proof fn lemma_trim_space_before(x: Seq<char>)
    requires
        x.len() > 0,
        !is_ws(x[0]),
        !is_ws(x.last()),
    ensures
        trim(seq![' '] + x) == x,
{
    assert((seq![' '] + x).drop_first() =~= x);
    assert(trim_start(seq![' '] + x) == trim_start(x));
}

/// Trimming a space after plain text.
pub proof fn lemma_trim_space_after(x: Seq<char>)
    requires
        x.len() > 0,
        !is_ws(x[0]),
        !is_ws(x.last()),
    ensures
        trim(x + seq![' ']) == x,
{
    let y = x + seq![' '];
    assert(y[0] == x[0]);
    assert(trim_start(y) == y);
    assert(y.last() == ' ');
    assert(is_ws(' '));
    assert(y.drop_last() =~= x);
    assert(trim_end(y) == trim_end(x));
}

/// The characters that a floating-point literal is written with.
pub open spec fn float_char(c: char) -> bool {
    is_digit(c) || c == '.' || c == '+' || c == '-' || ('a' <= c && c <= 'z') || ('A' <= c
        && c <= 'Z')
}

proof fn lemma_digit_run(s: Seq<char>, i: int)
    requires
        0 <= i <= s.len(),
    ensures
        i <= digit_run(s, i) <= s.len(),
        forall|k: int| i <= k < digit_run(s, i) ==> is_digit(#[trigger] s[k]),
    decreases s.len() - i,
{
    if i < s.len() && is_digit(s[i]) {
        lemma_digit_run(s, i + 1);
    }
}

/// A floating-point literal is nonempty and written with digits, signs,
/// points and letters only.
pub proof fn lemma_float_literal_chars(v: Seq<char>)
    requires
        is_float_literal(v),
    ensures
        v.len() > 0,
        forall|i: int| 0 <= i < v.len() ==> float_char(#[trigger] v[i]),
{
    let body = unsigned_part(v);
    let off: int = if v.len() > 0 && is_sign(v[0]) {
        1
    } else {
        0
    };
    assert(body =~= v.skip(off));
    if eq_ignore_ascii_case(body, "inf"@) || eq_ignore_ascii_case(body, "infinity"@)
        || eq_ignore_ascii_case(body, "nan"@) {
        reveal_strlit("inf");
        reveal_strlit("infinity");
        reveal_strlit("nan");
        assert(body.len() > 0);
        assert forall|i: int| 0 <= i < v.len() implies float_char(#[trigger] v[i]) by {
            if i >= off {
                let c = body[i - off];
                assert(c == v[i]);
                if eq_ignore_ascii_case(body, "inf"@) {
                    assert(ascii_lower(c) == ascii_lower("inf"@[i - off]));
                } else if eq_ignore_ascii_case(body, "infinity"@) {
                    assert(ascii_lower(c) == ascii_lower("infinity"@[i - off]));
                } else {
                    assert(ascii_lower(c) == ascii_lower("nan"@[i - off]));
                }
            }
        }
    } else {
        assert(is_decimal_number(body));
        lemma_digit_run(body, 0);
        let a = digit_run(body, 0);
        let m = mantissa_end(body);
        if a < body.len() && body[a] == '.' {
            lemma_digit_run(body, a + 1);
        }
        assert(0 <= m <= body.len());
        assert forall|i: int| 0 <= i < v.len() implies float_char(#[trigger] v[i]) by {
            if i >= off {
                let j = i - off;
                assert(body[j] == v[i]);
                if j < a {
                } else if j < m {
                    if j > a {
                        assert(a < body.len() && body[a] == '.');
                    }
                } else if j == m {
                    assert(exponent_or_end(body, m));
                } else {
                    let t = body.skip(m + 1);
                    assert(is_exponent(t));
                    let k: int = if t.len() > 0 && is_sign(t[0]) {
                        1
                    } else {
                        0
                    };
                    lemma_digit_run(t, k);
                    assert(t[j - m - 1] == body[j]);
                }
            }
        }
    }
}

} // verus!
