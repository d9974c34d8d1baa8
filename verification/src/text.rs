//! Character-level helpers shared by the parsers and validators of the library.
use vstd::prelude::*;

verus! {

/// Whether `c` has the Unicode `White_Space` property: the tab, line feed,
/// vertical tab, form feed, carriage return and space in ASCII; outside it
/// U+0085, U+00A0, U+1680, U+2000 to U+200A, U+2028, U+2029, U+202F, U+205F
/// and U+3000.
pub open spec fn unicode_whitespace(c: char) -> bool {
    let u = c as u32;
    ||| 9 <= u <= 13
    ||| u == 32
    ||| u == 0x85
    ||| u == 0xa0
    ||| u == 0x1680
    ||| 0x2000 <= u <= 0x200a
    ||| u == 0x2028
    ||| u == 0x2029
    ||| u == 0x202f
    ||| u == 0x205f
    ||| u == 0x3000
}

/// Whether `c` is whitespace as `char::is_whitespace` decides it: std
/// documents it as the Unicode `White_Space` property, the set spelled out in
/// `unicode_whitespace`.
pub fn char_is_whitespace(c: char) -> (r: bool)
    ensures
        r == unicode_whitespace(c),
{
    let u = c as u32;
    (9 <= u && u <= 13) || u == 32 || u == 0x85 || u == 0xa0 || u == 0x1680 || (0x2000 <= u && u <= 0x200a)
        || u == 0x2028 || u == 0x2029 || u == 0x202f || u == 0x205f || u == 0x3000
}

/// Wraps `String::push`, which appends one character.
#[verifier::external_body]
pub(crate) fn push_char(s: &mut String, c: char)
    ensures
        final(s)@ == old(s)@.push(c),
{
    s.push(c)
}

/// `s` without its leading whitespace.
pub open spec fn trim_start(s: Seq<char>) -> Seq<char>
    decreases s.len(),
{
    if s.len() > 0 && unicode_whitespace(s[0]) {
        trim_start(s.drop_first())
    } else {
        s
    }
}

/// `s` without its trailing whitespace.
pub open spec fn trim_end(s: Seq<char>) -> Seq<char>
    decreases s.len(),
{
    if s.len() > 0 && unicode_whitespace(s.last()) {
        trim_end(s.drop_last())
    } else {
        s
    }
}

/// `s` without leading and trailing whitespace, as `str::trim` gives it.
pub open spec fn trim(s: Seq<char>) -> Seq<char> {
    trim_end(trim_start(s))
}

pub open spec fn is_ascii_lower(c: char) -> bool {
    'a' <= c <= 'z'
}

pub open spec fn is_ascii_upper(c: char) -> bool {
    'A' <= c <= 'Z'
}

pub open spec fn is_ascii_digit(c: char) -> bool {
    '0' <= c <= '9'
}

pub open spec fn is_ascii_alnum(c: char) -> bool {
    is_ascii_digit(c) || is_ascii_lower(c) || is_ascii_upper(c)
}

/// `c` with an ASCII lower-case letter mapped to its upper-case letter.
pub open spec fn ascii_upper(c: char) -> char {
    if is_ascii_lower(c) {
        ((c as int) - 32) as char
    } else {
        c
    }
}

/// `s` with every ASCII lower-case letter made upper-case.
pub open spec fn ascii_uppercase(s: Seq<char>) -> Seq<char> {
    s.map_values(|c: char| ascii_upper(c))
}

/// The characters of `s`, in order.
pub fn chars_of(s: &str) -> (v: Vec<char>)
    ensures
        v@ == s@,
{
    let mut v: Vec<char> = Vec::new();
    for c in it: s.chars()
        invariant
            v@ == it.seq().take(it.index() as int),
            it.seq() == s@,
    {
        v.push(c);
    }
    v
}

/// The string made of `v[from..to]`.
pub fn string_from_range(v: &Vec<char>, from: usize, to: usize) -> (s: String)
    requires
        from <= to <= v.len(),
    ensures
        s@ == v@.subrange(from as int, to as int),
{
    let mut s = String::new();
    let mut i = from;
    while i < to
        invariant
            from <= i <= to <= v.len(),
            s@ == v@.subrange(from as int, i as int),
        decreases to - i,
    {
        push_char(&mut s, v[i]);
        assert(v@.subrange(from as int, i + 1) =~= v@.subrange(from as int, i as int).push(v@[i as int]));
        i += 1;
    }
    s
}

/// The string made of the characters of `v`.
pub fn string_from_chars(v: &Vec<char>) -> (s: String)
    ensures
        s@ == v@,
{
    let s = string_from_range(v, 0, v.len());
    assert(v@.subrange(0, v@.len() as int) =~= v@);
    s
}

/// Bounds `[from, to)` of `trim(v)` inside `v`.
pub fn trim_bounds(v: &Vec<char>) -> (r: (usize, usize))
    ensures
        r.0 <= r.1 <= v.len(),
        v@.subrange(r.0 as int, r.1 as int) == trim(v@),
{
    let n = v.len();
    let mut i: usize = 0;
    assert(v@.skip(0) =~= v@);
    while i < n && char_is_whitespace(v[i])
        invariant
            i <= n == v.len(),
            trim_start(v@) == trim_start(v@.skip(i as int)),
        decreases n - i,
    {
        assert(v@.skip(i as int).drop_first() =~= v@.skip(i + 1));
        i += 1;
    }
    assert(trim_start(v@) == v@.subrange(i as int, n as int)) by {
        assert(v@.skip(i as int) =~= v@.subrange(i as int, n as int));
    }
    let mut j: usize = n;
    while j > i && char_is_whitespace(v[j - 1])
        invariant
            i <= j <= n == v.len(),
            trim(v@) == trim_end(v@.subrange(i as int, j as int)),
        decreases j - i,
    {
        assert(v@.subrange(i as int, j as int).drop_last() =~= v@.subrange(i as int, j - 1));
        j -= 1;
    }
    (i, j)
}

/// `s` without leading and trailing whitespace.
pub fn trim_str(s: &str) -> (r: String)
    ensures
        r@ == trim(s@),
{
    let v = chars_of(s);
    let (from, to) = trim_bounds(&v);
    string_from_range(&v, from, to)
}

/// `c` with an ASCII lower-case letter made upper-case.
pub fn char_to_ascii_upper(c: char) -> (r: char)
    ensures
        r == ascii_upper(c),
{
    if 'a' <= c && c <= 'z' {
        let x: u32 = c as u32;
        let b: u8 = x as u8;
        assert(b == x) by (bit_vector)
            requires
                x < 256u32,
                b == x as u8,
        ;
        ((b - 32) as char)
    } else {
        c
    }
}

/// `s` with every ASCII lower-case letter made upper-case.
pub fn to_ascii_uppercase(s: &str) -> (r: String)
    ensures
        r@ == ascii_uppercase(s@),
{
    let v = chars_of(s);
    let mut r = String::new();
    let mut i: usize = 0;
    while i < v.len()
        invariant
            i <= v.len(),
            v@ == s@,
            r@ == ascii_uppercase(v@.take(i as int)),
        decreases v.len() - i,
    {
        push_char(&mut r, char_to_ascii_upper(v[i]));
        assert(ascii_uppercase(v@.take(i + 1)) =~= ascii_uppercase(v@.take(i as int)).push(ascii_upper(v@[i as int])));
        i += 1;
    }
    assert(v@.take(v.len() as int) =~= v@);
    r
}

/// `s` without trailing `/` characters.
pub open spec fn trim_trailing_slashes(s: Seq<char>) -> Seq<char>
    decreases s.len(),
{
    if s.len() > 0 && s.last() == '/' {
        trim_trailing_slashes(s.drop_last())
    } else {
        s
    }
}

/// `s` without trailing `/` characters.
pub fn trim_end_slashes(s: &str) -> (r: String)
    ensures
        r@ == trim_trailing_slashes(s@),
{
    let v = chars_of(s);
    let mut end = v.len();
    assert(v@.take(v.len() as int) =~= v@);
    while end > 0 && v[end - 1] == '/'
        invariant
            end <= v.len(),
            v@ == s@,
            trim_trailing_slashes(s@) == trim_trailing_slashes(v@.take(end as int)),
        decreases end,
    {
        assert(v@.take(end as int).drop_last() =~= v@.take(end - 1));
        end -= 1;
    }
    assert(v@.subrange(0, end as int) =~= v@.take(end as int));
    string_from_range(&v, 0, end)
}

/// Whether `a` and `b` hold the same characters.
pub fn str_eq(a: &str, b: &str) -> (r: bool)
    ensures
        r == (a@ == b@),
{
    let x = chars_of(a);
    let y = chars_of(b);
    if x.len() != y.len() {
        return false;
    }
    let mut i: usize = 0;
    while i < x.len()
        invariant
            i <= x.len() == y.len(),
            x@ == a@,
            y@ == b@,
            forall|j: int| 0 <= j < i ==> x@[j] == y@[j],
        decreases x.len() - i,
    {
        if x[i] != y[i] {
            return false;
        }
        i += 1;
    }
    assert(x@ =~= y@);
    true
}

/// Whether the first character of `s` is `c`.
pub fn starts_with_char(s: &str, c: char) -> (r: bool)
    ensures
        r == (s@.len() > 0 && s@[0] == c),
{
    let v = chars_of(s);
    v.len() > 0 && v[0] == c
}


/// `a` comes before `b` in the order of `str`: character by character, with a
/// proper prefix first.
pub open spec fn text_less(a: Seq<char>, b: Seq<char>) -> bool
    decreases a.len(),
{
    if a.len() == 0 {
        b.len() > 0
    } else if b.len() == 0 {
        false
    } else if a[0] == b[0] {
        text_less(a.drop_first(), b.drop_first())
    } else {
        a[0] < b[0]
    }
}

/// No text comes before itself.
pub proof fn lemma_text_less_irreflexive(a: Seq<char>)
    ensures
        !text_less(a, a),
    decreases a.len(),
{
    if a.len() > 0 {
        lemma_text_less_irreflexive(a.drop_first());
    }
}

/// The order of texts is transitive.
pub proof fn lemma_text_less_transitive(a: Seq<char>, b: Seq<char>, c: Seq<char>)
    requires
        text_less(a, b),
        text_less(b, c),
    ensures
        text_less(a, c),
    decreases a.len(),
{
    if a.len() > 0 && b.len() > 0 && c.len() > 0 && a[0] == b[0] && b[0] == c[0] {
        lemma_text_less_transitive(a.drop_first(), b.drop_first(), c.drop_first());
    }
}

/// Of two different texts, one comes before the other.
pub proof fn lemma_text_less_total(a: Seq<char>, b: Seq<char>)
    ensures
        a == b || text_less(a, b) || text_less(b, a),
    decreases a.len(),
{
    if a.len() > 0 && b.len() > 0 && a[0] == b[0] {
        lemma_text_less_total(a.drop_first(), b.drop_first());
        if a.drop_first() == b.drop_first() {
            assert(a =~= seq![a[0]] + a.drop_first());
            assert(b =~= seq![b[0]] + b.drop_first());
        }
    }
}

/// Dropping a common prefix keeps the order of two texts.
proof fn lemma_text_less_skip(a: Seq<char>, b: Seq<char>, i: int)
    requires
        0 <= i <= a.len(),
        i <= b.len(),
        forall|j: int| 0 <= j < i ==> a[j] == b[j],
    ensures
        text_less(a, b) == text_less(a.skip(i), b.skip(i)),
    decreases i,
{
    if i > 0 {
        lemma_text_less_skip(a.drop_first(), b.drop_first(), i - 1);
        assert(a.drop_first().skip(i - 1) =~= a.skip(i));
        assert(b.drop_first().skip(i - 1) =~= b.skip(i));
    } else {
        assert(a.skip(0) =~= a);
        assert(b.skip(0) =~= b);
    }
}

/// The outcome of comparing two values.
#[derive(Debug, Clone, Copy, PartialEq, Eq, Structural)]
pub enum Precedence {
    Before,
    Same,
    After,
}

/// Compares two texts in the order of `str`.
pub fn compare_text(a: &str, b: &str) -> (r: Precedence)
    ensures
        r == Precedence::Before <==> text_less(a@, b@),
        r == Precedence::Same <==> a@ == b@,
        r == Precedence::After <==> text_less(b@, a@),
{
    let x = chars_of(a);
    let y = chars_of(b);
    proof {
        lemma_text_less_irreflexive(a@);
        lemma_text_less_total(a@, b@);
        if text_less(a@, b@) && text_less(b@, a@) {
            lemma_text_less_transitive(a@, b@, a@);
        }
    }
    let mut i: usize = 0;
    while i < x.len() && i < y.len()
        invariant
            x@ == a@,
            y@ == b@,
            i <= x.len(),
            i <= y.len(),
            forall|j: int| 0 <= j < i ==> x@[j] == y@[j],
        decreases x.len() - i,
    {
        if x[i] != y[i] {
            proof {
                lemma_text_less_skip(a@, b@, i as int);
                lemma_text_less_skip(b@, a@, i as int);
            }
            if x[i] < y[i] {
                return Precedence::Before;
            } else {
                return Precedence::After;
            }
        }
        i += 1;
    }
    proof {
        lemma_text_less_skip(a@, b@, i as int);
        lemma_text_less_skip(b@, a@, i as int);
    }
    if x.len() < y.len() {
        Precedence::Before
    } else if y.len() < x.len() {
        Precedence::After
    } else {
        assert(x@ =~= y@);
        Precedence::Same
    }
}


/// The decimal digits of `n`, without leading zeros.
pub open spec fn nat_digits(n: nat) -> Seq<char>
    decreases n,
{
    if n < 10 {
        seq![digit_char(n)]
    } else {
        nat_digits(n / 10).push(digit_char(n % 10))
    }
}

/// The character of a decimal digit.
pub open spec fn digit_char(d: nat) -> char {
    ((d + 48) as u32) as char
}

/// The decimal text of `n`, with a minus sign when it is negative.
pub open spec fn int_text(n: int) -> Seq<char> {
    if n < 0 {
        seq!['-'] + nat_digits((-n) as nat)
    } else {
        nat_digits(n as nat)
    }
}

/// Appends the decimal digits of `n` to `s`.
fn push_digits(s: &mut String, n: u64)
    ensures
        final(s)@ == old(s)@ + nat_digits(n as nat),
    decreases n,
{
    if n >= 10 {
        push_digits(s, n / 10);
    }
    let d: u64 = n % 10;
    let c: char = if d == 0 { '0' } else if d == 1 { '1' } else if d == 2 { '2' } else if d == 3 { '3' }
        else if d == 4 { '4' } else if d == 5 { '5' } else if d == 6 { '6' } else if d == 7 { '7' }
        else if d == 8 { '8' } else { '9' };
    assert(c == digit_char(d as nat));
    let ghost mid = s@;
    push_char(s, c);
    if n >= 10 {
        assert(s@ =~= old(s)@ + nat_digits(n as nat));
    } else {
        assert(s@ =~= old(s)@ + nat_digits(n as nat));
    }
}

/// The decimal text of `n`, as `to_string` gives it.
pub fn i64_text(n: i64) -> (r: String)
    ensures
        r@ == int_text(n as int),
{
    let mut s = String::new();
    if n < 0 {
        push_char(&mut s, '-');
        let m: u64 = if n == i64::MIN { 9223372036854775808u64 } else { (-n) as u64 };
        push_digits(&mut s, m);
    } else {
        push_digits(&mut s, n as u64);
    }
    s
}


/// The decimal text of `n`, as `to_string` gives it.
pub fn u64_text(n: u64) -> (r: String)
    ensures
        r@ == nat_digits(n as nat),
{
    let mut s = String::new();
    push_digits(&mut s, n);
    assert(s@ =~= nat_digits(n as nat));
    s
}


/// The texts of `s` stand in the order of `str`: no text comes before one
/// standing ahead of it.
pub open spec fn texts_sorted(s: Seq<String>) -> bool {
    forall|i: int, j: int| 0 <= i < j < s.len() ==> !text_less(#[trigger] s[j]@, #[trigger] s[i]@)
}

/// The names of a directory listing in the order of their paths, as the
/// listing is archived: the same names, sorted in the order of `str` (for
/// UTF-8 names the order of their bytes).
pub fn sort_directory_listing(names: Vec<String>) -> (r: Vec<String>)
    ensures
        texts_sorted(r@),
        r@.to_multiset() == names@.to_multiset(),
{
    broadcast use vstd::seq_lib::group_to_multiset_ensures;
    let mut rest = names;
    let mut r: Vec<String> = Vec::new();
    while rest.len() > 0
        invariant
            texts_sorted(r@),
            r@.to_multiset().add(rest@.to_multiset()) == names@.to_multiset(),
        decreases rest.len(),
    {
        let ghost before = rest@;
        let n = rest.pop().unwrap();
        assert(before =~= rest@.push(n));
        let mut pos: usize = 0;
        while pos < r.len() && compare_text(n.as_str(), r[pos].as_str()) != Precedence::Before
            invariant
                pos <= r.len(),
                forall|j: int| 0 <= j < pos ==> !text_less(n@, #[trigger] r@[j]@),
            decreases r.len() - pos,
        {
            pos += 1;
        }
        let ghost old_r = r@;
        proof {
            assert forall|k: int| pos <= k < old_r.len() implies !text_less(#[trigger] old_r[k]@, n@) by {
                if text_less(old_r[k]@, n@) {
                    // n comes before old_r[pos], which comes no later than old_r[k]
                    if k == pos {
                        lemma_text_less_transitive(old_r[k]@, n@, old_r[k]@);
                        lemma_text_less_irreflexive(old_r[k]@);
                    } else {
                        lemma_text_less_transitive(old_r[k]@, n@, old_r[pos as int]@);
                        assert(!text_less(old_r[k]@, old_r[pos as int]@));
                    }
                }
            }
        }
        r.insert(pos, n);
        proof {
            let nr = r@;
            assert forall|i: int, j: int| 0 <= i < j < nr.len() implies !text_less(#[trigger] nr[j]@, #[trigger] nr[i]@) by {
                if j < pos {
                    assert(nr[i] == old_r[i] && nr[j] == old_r[j]);
                } else if j == pos {
                    assert(nr[i] == old_r[i]);
                } else if i == pos {
                    assert(nr[j] == old_r[j - 1]);
                } else if i < pos {
                    assert(nr[i] == old_r[i] && nr[j] == old_r[j - 1]);
                } else {
                    assert(nr[i] == old_r[i - 1] && nr[j] == old_r[j - 1]);
                }
            }
            assert(nr.remove(pos as int) =~= old_r);
            assert(nr[pos as int] == n);
            assert(nr.to_multiset() =~= old_r.to_multiset().insert(n)) by {
                vstd::seq_lib::to_multiset_remove(nr, pos as int);
                nr.to_multiset_ensures();
                assert(nr.contains(n));
                assert(old_r.to_multiset() == nr.to_multiset().remove(n));
                assert(nr.to_multiset().count(n) > 0);
            }
            vstd::seq_lib::to_multiset_build(rest@, n);
            assert(before.to_multiset() =~= rest@.to_multiset().insert(n));
            assert(nr.to_multiset().add(rest@.to_multiset()) =~= names@.to_multiset());
        }
    }
    r
}

/// The last `width` decimal digits of `n`, with leading zeros.
pub open spec fn padded_digits(n: nat, width: nat) -> Seq<char>
    decreases width,
{
    if width == 0 {
        seq![]
    } else {
        padded_digits(n / 10, (width - 1) as nat).push(digit_char(n % 10))
    }
}

/// Appends the last `width` decimal digits of `n`, with leading zeros.
pub fn push_padded_digits(s: &mut String, n: u64, width: usize)
    ensures
        final(s)@ == old(s)@ + padded_digits(n as nat, width as nat),
    decreases width,
{
    if width > 0 {
        push_padded_digits(s, n / 10, width - 1);
        let d: u8 = (n % 10) as u8;
        let c = (48 + d) as char;
        assert(c == digit_char((n % 10) as nat));
        let ghost before = s@;
        push_char(s, c);
        assert(s@ =~= old(s)@ + padded_digits(n as nat, width as nat));
    }
}

} // verus!
