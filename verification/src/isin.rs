//! International Securities Identification Numbers: validation with the Luhn
//! check digit, normalisation, and parsing of lists of ISINs.
use vstd::prelude::*;
use crate::text::{
    ascii_uppercase, char_is_whitespace, chars_of, is_ascii_alnum, is_ascii_digit, is_ascii_upper,
    string_from_chars, to_ascii_uppercase, trim, trim_str, unicode_whitespace,
};

verus! {

/// The decimal digits that the Luhn check of an ISIN reads for one character:
/// a digit stands for itself, a letter `A..Z` for the two digits of `10..35`.
pub open spec fn char_luhn_digits(c: char) -> Seq<int> {
    if is_ascii_digit(c) {
        seq![(c as int) - ('0' as int)]
    } else {
        let v = (c as int) - ('A' as int) + 10;
        seq![v / 10, v % 10]
    }
}

/// The digit string of `s` that the Luhn check runs over.
pub open spec fn luhn_digits(s: Seq<char>) -> Seq<int>
    decreases s.len(),
{
    if s.len() == 0 {
        seq![]
    } else {
        luhn_digits(s.drop_last()) + char_luhn_digits(s.last())
    }
}

/// What one digit adds to the Luhn sum: doubled digits add the digit sum of
/// their double.
pub open spec fn luhn_weight(d: int, double: bool) -> int {
    if double {
        (2 * d) / 10 + (2 * d) % 10
    } else {
        d
    }
}

/// The Luhn sum of `ds` read from its last digit, doubling every second digit;
/// `double` says whether the last digit is doubled.
pub open spec fn luhn_sum(ds: Seq<int>, double: bool) -> int
    decreases ds.len(),
{
    if ds.len() == 0 {
        0
    } else {
        luhn_weight(ds.last(), double) + luhn_sum(ds.drop_last(), !double)
    }
}

/// The layout of an ISIN: twelve characters, a two-letter country code, nine
/// upper-case letters or digits, and a check digit.
pub open spec fn isin_layout(s: Seq<char>) -> bool {
    &&& s.len() == 12
    &&& is_ascii_upper(s[0])
    &&& is_ascii_upper(s[1])
    &&& forall|i: int| 2 <= i < 11 ==> #[trigger] is_ascii_digit(s[i]) || is_ascii_upper(s[i])
    &&& is_ascii_digit(s[11])
}

/// `s` is a valid ISIN: its layout is right and its Luhn sum is a multiple of 10.
pub open spec fn valid_isin(s: Seq<char>) -> bool {
    isin_layout(s) && luhn_sum(luhn_digits(s), false) % 10 == 0
}

/// The normal form of an ISIN as typed: trimmed and in upper case.
pub open spec fn normal_isin_text(s: Seq<char>) -> Seq<char> {
    ascii_uppercase(trim(s))
}

/// The error of `normalize_isin`.
#[derive(Debug, Clone, Copy, PartialEq, Eq)]
pub enum IsinError {
    /// The text is not a valid 12-character ISIN.
    Invalid,
}

impl IsinError {
    /// The text of the error.
    pub fn message(&self) -> (r: String)
        ensures
            r@ == "ISIN must be a valid 12-character ISIN"@,
    {
        "ISIN must be a valid 12-character ISIN".to_owned()
    }
}

proof fn lemma_luhn_digits_len(s: Seq<char>)
    requires
        forall|i: int| 0 <= i < s.len() ==> #[trigger] is_ascii_digit(s[i]) || is_ascii_upper(s[i]),
    ensures
        luhn_digits(s).len() <= 2 * s.len(),
        forall|i: int| 0 <= i < luhn_digits(s).len() ==> 0 <= #[trigger] luhn_digits(s)[i] <= 9,
    decreases s.len(),
{
    if s.len() > 0 {
        let t = s.drop_last();
        assert forall|i: int| 0 <= i < t.len() implies #[trigger] is_ascii_digit(t[i]) || is_ascii_upper(t[i]) by {
            assert(t[i] == s[i]);
        }
        lemma_luhn_digits_len(t);
        assert(is_ascii_digit(s[s.len() - 1]) || is_ascii_upper(s[s.len() - 1]));
    }
}

/// Whether `isin` is a valid ISIN: twelve characters laid out as an ISIN whose
/// last digit is the Luhn check digit of the others.
pub fn is_valid_isin(isin: &str) -> (r: bool)
    ensures
        r == valid_isin(isin@),
{
    let s = chars_of(isin);
    if s.len() != 12 {
        return false;
    }
    if !('A' <= s[0] && s[0] <= 'Z') || !('A' <= s[1] && s[1] <= 'Z') {
        return false;
    }
    let mut k: usize = 2;
    while k < 11
        invariant
            2 <= k <= 11,
            s@ == isin@,
            s.len() == 12,
            forall|i: int| 2 <= i < k ==> #[trigger] is_ascii_alnum(s@[i]),
        decreases 11 - k,
    {
        let c = s[k];
        if !(('0' <= c && c <= '9') || ('a' <= c && c <= 'z') || ('A' <= c && c <= 'Z')) {
            assert(!(is_ascii_digit(s@[k as int]) || is_ascii_upper(s@[k as int])));
            return false;
        }
        k += 1;
    }
    if !('0' <= s[11] && s[11] <= '9') {
        return false;
    }
    // expand every character into its digits
    let mut digits: Vec<u8> = Vec::new();
    let mut k: usize = 0;
    while k < 12
        invariant
            k <= 12,
            s@ == isin@,
            s.len() == 12,
            forall|i: int| 0 <= i < k ==> #[trigger] is_ascii_digit(s@[i]) || is_ascii_upper(s@[i]),
            digits@.len() == luhn_digits(s@.take(k as int)).len(),
            forall|i: int| 0 <= i < digits@.len() ==> digits@[i] as int == #[trigger] luhn_digits(s@.take(k as int))[i],
        decreases 12 - k,
    {
        let c = s[k];
        assert(s@.take(k + 1).drop_last() =~= s@.take(k as int));
        if '0' <= c && c <= '9' {
            let x: u32 = c as u32;
            digits.push((x - 48) as u8);
        } else if 'A' <= c && c <= 'Z' {
            let x: u32 = c as u32;
            let value: u32 = x - 65 + 10;
            digits.push((value / 10) as u8);
            digits.push((value % 10) as u8);
        } else {
            proof {
                assert(!valid_isin(isin@)) by {
                    assert(!(is_ascii_digit(s@[k as int]) || is_ascii_upper(s@[k as int])));
                }
            }
            return false;
        }
        k += 1;
    }
    assert(s@.take(12) =~= s@);
    let ghost ds = luhn_digits(s@);
    assert(digits@.len() == ds.len());
    proof {
        lemma_luhn_digits_len(s@);
    }
    assert(ds.take(ds.len() as int) =~= ds);
    let mut sum: u32 = 0;
    let mut double = false;
    let mut j: usize = digits.len();
    while j > 0
        invariant
            j <= digits@.len() == ds.len() <= 24,
            forall|i: int| 0 <= i < ds.len() ==> digits@[i] as int == #[trigger] ds[i],
            forall|i: int| 0 <= i < ds.len() ==> 0 <= #[trigger] ds[i] <= 9,
            sum <= 9 * (ds.len() - j),
            sum + luhn_sum(ds.take(j as int), double) == luhn_sum(ds, false),
        decreases j,
    {
        let d = digits[j - 1];
        assert(ds.take(j as int).drop_last() =~= ds.take(j - 1));
        assert(ds.take(j as int).last() == ds[j - 1]);
        let mut value: u32 = d as u32;
        if double {
            value = value * 2;
            value = (value / 10) + (value % 10);
        }
        sum = sum + value;
        double = !double;
        j -= 1;
    }
    assert(ds.take(0) =~= Seq::<int>::empty());
    sum % 10 == 0
}

/// `input` trimmed and in upper case, if that is a valid ISIN.
pub fn normalize_isin(input: &str) -> (r: Result<String, IsinError>)
    ensures
        match r {
            Ok(s) => s@ == normal_isin_text(input@) && valid_isin(s@),
            Err(_) => !valid_isin(normal_isin_text(input@)),
        },
{
    let trimmed = trim_str(input);
    let isin = to_ascii_uppercase(trimmed.as_str());
    if !is_valid_isin(isin.as_str()) {
        return Err(IsinError::Invalid);
    }
    Ok(isin)
}


/// The characters that separate the ISINs of a list: whitespace, `,` and `;`.
pub open spec fn is_isin_separator(c: char) -> bool {
    unicode_whitespace(c) || c == ',' || c == ';'
}

/// `cur` as a one-element list of tokens, or no token when it is empty.
pub open spec fn emit_token(cur: Seq<char>) -> Seq<Seq<char>> {
    if cur.len() > 0 {
        seq![cur]
    } else {
        seq![]
    }
}

/// The tokens of `s` after the partial token `cur`: the maximal runs of
/// characters that are not separators.
pub open spec fn scan_tokens(s: Seq<char>, cur: Seq<char>) -> Seq<Seq<char>>
    decreases s.len(),
{
    if s.len() == 0 {
        emit_token(cur)
    } else if is_isin_separator(s[0]) {
        emit_token(cur) + scan_tokens(s.drop_first(), seq![])
    } else {
        scan_tokens(s.drop_first(), cur.push(s[0]))
    }
}

/// The non-empty tokens of one input between the separators, in order.
pub open spec fn isin_tokens(s: Seq<char>) -> Seq<Seq<char>> {
    scan_tokens(s, seq![])
}

/// The tokens of all inputs, input after input.
pub open spec fn all_isin_tokens(inputs: Seq<Seq<char>>) -> Seq<Seq<char>>
    decreases inputs.len(),
{
    if inputs.len() == 0 {
        seq![]
    } else {
        all_isin_tokens(inputs.drop_last()) + isin_tokens(inputs.last())
    }
}

/// `s` with every element after its first occurrence removed.
pub open spec fn dedup<A>(s: Seq<A>) -> Seq<A>
    decreases s.len(),
{
    if s.len() == 0 {
        seq![]
    } else {
        let d = dedup(s.drop_last());
        if d.contains(s.last()) {
            d
        } else {
            d.push(s.last())
        }
    }
}

/// The errors of `parse_transaction_asset_isins`.
#[derive(Debug, Clone, Copy, PartialEq, Eq)]
pub enum IsinListError {
    /// A token is not a valid ISIN.
    InvalidIsin,
    /// The inputs hold no token at all.
    NoIsin,
}

impl IsinListError {
    /// The text of the error.
    pub fn message(&self) -> (r: String)
        ensures
            r@ == match self {
                IsinListError::InvalidIsin => "ISIN must be a valid 12-character ISIN"@,
                IsinListError::NoIsin => "At least one ISIN is required"@,
            },
    {
        match self {
            IsinListError::InvalidIsin => "ISIN must be a valid 12-character ISIN".to_owned(),
            IsinListError::NoIsin => "At least one ISIN is required".to_owned(),
        }
    }
}

/// The result that `parse_transaction_asset_isins` gives for `inputs`.
pub open spec fn parsed_isin_list(inputs: Seq<Seq<char>>) -> Result<Seq<Seq<char>>, IsinListError> {
    let tokens = all_isin_tokens(inputs);
    if exists|i: int| 0 <= i < tokens.len() && !valid_isin(normal_isin_text(#[trigger] tokens[i])) {
        Err(IsinListError::InvalidIsin)
    } else {
        let isins = dedup(tokens.map_values(|t: Seq<char>| normal_isin_text(t)));
        if isins.len() == 0 {
            Err(IsinListError::NoIsin)
        } else {
            Ok(isins)
        }
    }
}

/// The tokens of `input`, split at whitespace, `,` and `;`, empty ones left out.
pub fn split_isin_tokens(input: &str) -> (r: Vec<String>)
    ensures
        r.deep_view() == isin_tokens(input@),
{
    let v = chars_of(input);
    let mut out: Vec<String> = Vec::new();
    let mut cur: Vec<char> = Vec::new();
    let mut i: usize = 0;
    assert(v@.skip(0) =~= v@);
    while i < v.len()
        invariant
            i <= v.len(),
            v@ == input@,
            out.deep_view() + scan_tokens(v@.skip(i as int), cur@) == isin_tokens(v@),
        decreases v.len() - i,
    {
        let c = v[i];
        let ghost t = v@.skip(i as int);
        assert(t[0] == c);
        assert(t.drop_first() =~= v@.skip(i + 1));
        if char_is_whitespace(c) || c == ',' || c == ';' {
            if cur.len() > 0 {
                let token = string_from_chars(&cur);
                let ghost before = out.deep_view();
                out.push(token);
                assert(out.deep_view() =~= before + emit_token(cur@));
            } else {
                assert(emit_token(cur@) =~= Seq::<Seq<char>>::empty());
                assert(out.deep_view() + emit_token(cur@) =~= out.deep_view());
            }
            assert(out.deep_view() + scan_tokens(v@.skip(i + 1), seq![]) == isin_tokens(v@)) by {
                assert(scan_tokens(t, cur@) == emit_token(cur@) + scan_tokens(v@.skip(i + 1), seq![]));
            }
            cur = Vec::new();
            assert(cur@ =~= Seq::<char>::empty());
        } else {
            cur.push(c);
        }
        i += 1;
    }
    assert(v@.skip(i as int) =~= Seq::<char>::empty());
    if cur.len() > 0 {
        let token = string_from_chars(&cur);
        let ghost before = out.deep_view();
        out.push(token);
        assert(out.deep_view() =~= before + emit_token(cur@));
    } else {
        assert(out.deep_view() + emit_token(cur@) =~= out.deep_view());
    }
    out
}

/// Whether `v` holds a string equal to `s`.
pub fn contains_string(v: &Vec<String>, s: &String) -> (r: bool)
    ensures
        r == v.deep_view().contains(s@),
{
    let mut i: usize = 0;
    while i < v.len()
        invariant
            i <= v.len(),
            forall|j: int| 0 <= j < i ==> v.deep_view()[j] != s@,
        decreases v.len() - i,
    {
        if v[i] == *s {
            assert(v.deep_view()[i as int] == s@);
            return true;
        }
        i += 1;
    }
    false
}

/// The ISINs that `inputs` list, each normalised, the first occurrence of each
/// kept, in order. Fails on the first token that is no valid ISIN, and when
/// there is no token at all.
pub fn parse_transaction_asset_isins(inputs: Vec<String>) -> (r: Result<Vec<String>, IsinListError>)
    ensures
        match r {
            Ok(isins) => parsed_isin_list(inputs.deep_view()) == Ok::<Seq<Seq<char>>, IsinListError>(isins.deep_view()),
            Err(e) => parsed_isin_list(inputs.deep_view()) == Err::<Seq<Seq<char>>, IsinListError>(e),
        },
{
    // gather the tokens of all inputs
    let mut tokens: Vec<String> = Vec::new();
    let mut i: usize = 0;
    while i < inputs.len()
        invariant
            i <= inputs.len(),
            tokens.deep_view() == all_isin_tokens(inputs.deep_view().take(i as int)),
        decreases inputs.len() - i,
    {
        let part = split_isin_tokens(inputs[i].as_str());
        let ghost before = tokens.deep_view();
        let mut j: usize = 0;
        while j < part.len()
            invariant
                j <= part.len(),
                tokens.deep_view() == before + part.deep_view().take(j as int),
            decreases part.len() - j,
        {
            let t = part[j].clone();
            assert(t@ == part.deep_view()[j as int]);
            let ghost tb = tokens.deep_view();
            tokens.push(t);
            assert(tokens.deep_view() =~= tb.push(t@));
            assert(part.deep_view().take(j + 1) =~= part.deep_view().take(j as int).push(part.deep_view()[j as int]));
            assert(tokens.deep_view() =~= before + part.deep_view().take(j + 1));
            j += 1;
        }
        assert(part.deep_view().take(j as int) =~= part.deep_view());
        assert(inputs.deep_view().take(i + 1).drop_last() =~= inputs.deep_view().take(i as int));
        assert(inputs.deep_view().take(i + 1).last() == inputs.deep_view()[i as int]);
        i += 1;
    }
    assert(inputs.deep_view().take(inputs.len() as int) =~= inputs.deep_view());
    let ghost all = tokens.deep_view();
    let ghost normal = all.map_values(|t: Seq<char>| normal_isin_text(t));
    // normalise each token and keep the first occurrence of each ISIN
    let mut isins: Vec<String> = Vec::new();
    let mut k: usize = 0;
    while k < tokens.len()
        invariant
            k <= tokens.len(),
            all == tokens.deep_view(),
            all == all_isin_tokens(inputs.deep_view()),
            normal == all.map_values(|t: Seq<char>| normal_isin_text(t)),
            forall|m: int| 0 <= m < k ==> valid_isin(normal_isin_text(#[trigger] all[m])),
            isins.deep_view() == dedup(normal.take(k as int)),
        decreases tokens.len() - k,
    {
        match normalize_isin(tokens[k].as_str()) {
            Ok(isin) => {
                assert(normal.take(k + 1).drop_last() =~= normal.take(k as int));
                assert(normal.take(k + 1).last() == isin@);
                if !contains_string(&isins, &isin) {
                    let ghost before = isins.deep_view();
                    isins.push(isin);
                    assert(isins.deep_view() =~= before.push(normal[k as int]));
                }
            },
            Err(_) => {
                assert(!valid_isin(normal_isin_text(all[k as int])));
                return Err(IsinListError::InvalidIsin);
            },
        }
        k += 1;
    }
    assert(normal.take(k as int) =~= normal);
    if isins.len() == 0 {
        return Err(IsinListError::NoIsin);
    }
    Ok(isins)
}


/// The first eleven characters of an ISIN: a two-letter country code and
/// nine upper-case letters or digits.
pub open spec fn isin_prefix_layout(p: Seq<char>) -> bool {
    &&& p.len() == 11
    &&& is_ascii_upper(p[0])
    &&& is_ascii_upper(p[1])
    &&& forall|i: int| 2 <= i < 11 ==> #[trigger] is_ascii_digit(p[i]) || is_ascii_upper(p[i])
}

proof fn lemma_luhn_sum_with_digit(p: Seq<char>, c: char)
    requires
        is_ascii_digit(c),
    ensures
        luhn_sum(luhn_digits(p.push(c)), false) == ((c as int) - ('0' as int)) + luhn_sum(luhn_digits(p), true),
{
    assert(p.push(c).drop_last() =~= p);
    assert(p.push(c).last() == c);
    let l = luhn_digits(p);
    let d = (c as int) - ('0' as int);
    assert(luhn_digits(p.push(c)) == l + seq![d]);
    assert((l + seq![d]).drop_last() =~= l);
    assert((l + seq![d]).last() == d);
}

/// The check digit of an ISIN is unique: an eleven-character prefix laid out
/// as an ISIN is completed to a valid ISIN by exactly one digit, returned.
pub proof fn lemma_isin_check_digit(p: Seq<char>) -> (c: char)
    requires
        isin_prefix_layout(p),
    ensures
        is_ascii_digit(c),
        valid_isin(p.push(c)),
        forall|d: char| valid_isin(p.push(d)) ==> d == c,
{
    let sum = luhn_sum(luhn_digits(p), true);
    let v: int = (10 - sum % 10) % 10;
    let c = ((v + 48) as u32) as char;
    assert(c as int == v + 48);
    lemma_luhn_sum_with_digit(p, c);
    let q = p.push(c);
    assert(isin_layout(q)) by {
        assert forall|i: int| 2 <= i < 11 implies #[trigger] is_ascii_digit(q[i]) || is_ascii_upper(q[i]) by {
            assert(q[i] == p[i]);
        }
    }
    assert forall|d: char| valid_isin(p.push(d)) implies d == c by {
        assert(p.push(d)[11] == d);
        lemma_luhn_sum_with_digit(p, d);
        let e = (d as int) - ('0' as int);
        assert((e + sum) % 10 == 0);
        assert((v + sum) % 10 == 0);
        assert(e == v);
    }
    c
}

/// A valid ISIN has no whitespace and no lower-case letter, so normalising it
/// again gives it back: normalising an ISIN is idempotent.
pub proof fn lemma_normal_isin_idempotent(s: Seq<char>)
    requires
        valid_isin(normal_isin_text(s)),
    ensures
        normal_isin_text(normal_isin_text(s)) == normal_isin_text(s),
{
    let n = normal_isin_text(s);
    assert forall|i: int| 0 <= i < n.len() implies #[trigger] is_ascii_digit(n[i]) || is_ascii_upper(n[i]) by {
        if 2 <= i < 11 {
            assert(is_ascii_digit(n[i]) || is_ascii_upper(n[i]));
        }
    }
    assert(!unicode_whitespace(n[0]));
    assert(!unicode_whitespace(n[n.len() - 1]));
    assert(crate::text::trim_start(n) == n);
    assert(crate::text::trim_end(n) == n);
    assert(ascii_uppercase(n) =~= n);
}

/// The elements of `dedup(s)` are elements of `s`, each occurring once.
pub proof fn lemma_dedup_distinct<A>(s: Seq<A>)
    ensures
        forall|i: int, j: int| 0 <= i < j < dedup(s).len() ==> dedup(s)[i] != dedup(s)[j],
        forall|i: int| 0 <= i < dedup(s).len() ==> s.contains(#[trigger] dedup(s)[i]),
    decreases s.len(),
{
    if s.len() > 0 {
        let p = s.drop_last();
        lemma_dedup_distinct(p);
        let d = dedup(p);
        assert forall|i: int| 0 <= i < d.len() implies s.contains(#[trigger] d[i]) by {
            let k = choose|k: int| 0 <= k < p.len() && p[k] == d[i];
            assert(s[k] == d[i]);
        }
        if !d.contains(s.last()) {
            let e = d.push(s.last());
            assert(e == dedup(s));
            assert forall|i: int, j: int| 0 <= i < j < e.len() implies e[i] != e[j] by {
                if j == d.len() {
                    assert(e[i] == d[i]);
                }
            }
            assert forall|i: int| 0 <= i < e.len() implies s.contains(#[trigger] e[i]) by {
                if i == d.len() {
                    assert(s[s.len() - 1] == e[i]);
                } else {
                    assert(e[i] == d[i]);
                }
            }
        }
    }
}

/// A parsed ISIN list holds each ISIN once, each a valid ISIN in normal form.
pub proof fn lemma_parsed_isins_distinct(inputs: Seq<Seq<char>>)
    requires
        parsed_isin_list(inputs) is Ok,
    ensures
        forall|i: int, j: int| 0 <= i < j < parsed_isin_list(inputs)->Ok_0.len()
            ==> parsed_isin_list(inputs)->Ok_0[i] != parsed_isin_list(inputs)->Ok_0[j],
        forall|i: int| 0 <= i < parsed_isin_list(inputs)->Ok_0.len() ==> {
            let isin = #[trigger] parsed_isin_list(inputs)->Ok_0[i];
            valid_isin(isin) && normal_isin_text(isin) == isin
        },
{
    let tokens = all_isin_tokens(inputs);
    let normal = tokens.map_values(|t: Seq<char>| normal_isin_text(t));
    lemma_dedup_distinct(normal);
    let v = dedup(normal);
    assert forall|i: int| 0 <= i < v.len() implies valid_isin(#[trigger] v[i]) && normal_isin_text(v[i]) == v[i] by {
        assert(normal.contains(v[i]));
        let k = choose|k: int| 0 <= k < normal.len() && normal[k] == v[i];
        assert(normal[k] == normal_isin_text(tokens[k]));
        assert(valid_isin(normal_isin_text(tokens[k])));
        lemma_normal_isin_idempotent(tokens[k]);
    }
}

} // verus!
