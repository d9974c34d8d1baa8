//! What the app's pages show: shortened and fallback texts, decimal and time
//! texts, the asset suggestions of the ISIN field, and the counter of pending
//! requests.
use vstd::prelude::*;
use crate::ledger::TransactionAsset;
use crate::transactions::TransactionType;
use crate::portfolio::opt_text;
use crate::text::{chars_of, push_char, str_eq, string_from_range, trim, trim_str};

verus! {

/// The text shown for a value that is absent or blank.
pub open spec fn unknown_text() -> Seq<char> {
    "-"@
}

/// `value` cut to its first `max_chars` characters, with `...` appended when
/// anything was cut.
pub open spec fn truncated(value: Seq<char>, max_chars: nat) -> Seq<char> {
    if value.len() <= max_chars {
        value
    } else {
        value.take(max_chars as int) + "..."@
    }
}

/// `value` cut to its first `max_chars` characters, with `...` appended when
/// anything was cut.
pub fn trunc_str(value: &str, max_chars: usize) -> (r: String)
    ensures
        r@ == truncated(value@, max_chars as nat),
{
    let v = chars_of(value);
    if v.len() <= max_chars {
        return value.to_owned();
    }
    let head = string_from_range(&v, 0, max_chars);
    assert(v@.subrange(0, max_chars as int) =~= value@.take(max_chars as int));
    head.concat("...")
}

/// The value, or `-` when it is absent or blank.
pub open spec fn value_or_unknown_text(value: Option<Seq<char>>) -> Seq<char> {
    match value {
        Some(v) => if trim(v).len() > 0 { v } else { unknown_text() },
        None => unknown_text(),
    }
}

/// The value, or `-` when it is absent or blank.
pub fn value_or_unknown<'a>(value: Option<&'a str>) -> (r: &'a str)
    ensures
        r@ == value_or_unknown_text(match value { Some(v) => Some(v@), None => None }),
{
    match value {
        Some(v) => {
            let t = trim_str(v);
            if t.as_str().is_empty() {
                "-"
            } else {
                v
            }
        },
        None => "-",
    }
}

/// A text that is present and not blank.
pub open spec fn present(value: Option<Seq<char>>) -> Option<Seq<char>> {
    match value {
        Some(v) => if trim(v).len() > 0 { Some(v) } else { None },
        None => None,
    }
}

/// When an asset was updated: the date and the time to the minute (its first
/// five characters), whichever are present and not blank, or `?`.
pub open spec fn updated_at_text(date: Option<Seq<char>>, time: Option<Seq<char>>) -> Seq<char> {
    let t = match present(time) {
        Some(t) => Some(t.take(if t.len() < 5 { t.len() as int } else { 5 })),
        None => None,
    };
    match (present(date), t) {
        (Some(d), Some(t)) => d + " "@ + t,
        (Some(d), None) => d,
        (None, Some(t)) => t,
        (None, None) => "?"@,
    }
}

/// When an asset was updated: the date and the time to the minute, whichever
/// are present and not blank, or `?`.
pub fn format_updated_at(date: Option<&str>, time: Option<&str>) -> (r: String)
    ensures
        r@ == updated_at_text(
            match date { Some(d) => Some(d@), None => None },
            match time { Some(t) => Some(t@), None => None },
        ),
{
    let date = match date {
        Some(d) => if trim_str(d).as_str().is_empty() { None } else { Some(d) },
        None => None,
    };
    let time = match time {
        Some(t) => if trim_str(t).as_str().is_empty() {
            None
        } else {
            let v = chars_of(t);
            let n = if v.len() < 5 { v.len() } else { 5 };
            let s = string_from_range(&v, 0, n);
            assert(v@.subrange(0, n as int) =~= t@.take(n as int));
            Some(s)
        },
        None => None,
    };
    match (date, time) {
        (Some(d), Some(t)) => d.to_owned().concat(" ").concat(t.as_str()),
        (Some(d), None) => d.to_owned(),
        (None, Some(t)) => t,
        (None, None) => "?".to_owned(),
    }
}

/// The number of bytes of `c` in UTF-8.
pub open spec fn utf8_len(c: char) -> nat {
    if (c as u32) < 0x80 {
        1
    } else if (c as u32) < 0x800 {
        2
    } else if (c as u32) < 0x10000 {
        3
    } else {
        4
    }
}

/// The number of bytes of `s` in UTF-8.
pub open spec fn utf8_bytes(s: Seq<char>) -> nat
    decreases s.len(),
{
    if s.len() == 0 {
        0
    } else {
        utf8_len(s[0]) + utf8_bytes(s.drop_first())
    }
}

/// How many leading characters of `s` fit in `n` bytes of UTF-8.
pub open spec fn chars_within(s: Seq<char>, n: nat) -> nat
    decreases s.len(),
{
    if s.len() == 0 || utf8_len(s[0]) > n {
        0
    } else {
        1 + chars_within(s.drop_first(), (n - utf8_len(s[0])) as nat)
    }
}

/// `s` without its trailing `0` characters.
pub open spec fn without_trailing_zeros(s: Seq<char>) -> Seq<char>
    decreases s.len(),
{
    if s.len() > 0 && s.last() == '0' {
        without_trailing_zeros(s.drop_last())
    } else {
        s
    }
}

/// The index of the first `.` in `s`, if any.
pub open spec fn first_dot(s: Seq<char>) -> Option<int> {
    if exists|i: int| 0 <= i < s.len() && s[i] == '.' {
        Some(choose|i: int| 0 <= i < s.len() && s[i] == '.' && forall|j: int| 0 <= j < i ==> s[j] != '.')
    } else {
        None
    }
}

/// The most fraction digits shown of a decimal.
pub const DECIMAL_DISPLAY_MAX_FRACTION_DIGITS: usize = 10;

/// The fraction of `s` after its first `.` can be cut after ten bytes: it is
/// not longer, or a character ends at the tenth byte.
pub open spec fn fraction_cut_on_boundary(s: Seq<char>) -> bool {
    match first_dot(s) {
        Some(i) => {
            let f = s.skip(i + 1);
            utf8_bytes(f) <= 10 || utf8_bytes(f.take(chars_within(f, 10) as int)) == 10
        },
        None => true,
    }
}

/// A decimal text for display: the part after the first `.` cut to its first
/// ten bytes and stripped of trailing zeros, the `.` dropped when nothing of it
/// is left; a text without `.` as it is.
pub open spec fn decimal_display_text(s: Seq<char>) -> Seq<char> {
    match first_dot(s) {
        Some(i) => {
            let f = s.skip(i + 1);
            let kept = without_trailing_zeros(f.take(chars_within(f, 10) as int));
            if kept.len() == 0 {
                s.take(i)
            } else {
                s.take(i) + "."@ + kept
            }
        },
        None => s,
    }
}

/// The number of bytes of `c` in UTF-8.
fn char_utf8_len(c: char) -> (r: usize)
    ensures
        r == utf8_len(c),
{
    let u = c as u32;
    if u < 0x80 {
        1
    } else if u < 0x800 {
        2
    } else if u < 0x10000 {
        3
    } else {
        4
    }
}

proof fn lemma_chars_within_step(s: Seq<char>, i: int, n: nat)
    requires
        0 <= i < s.len(),
        utf8_len(s[i]) <= n,
    ensures
        chars_within(s.skip(i), n) == 1 + chars_within(s.skip(i + 1), (n - utf8_len(s[i])) as nat),
{
    assert(s.skip(i)[0] == s[i]);
    assert(s.skip(i).drop_first() =~= s.skip(i + 1));
}

/// A decimal text for display: at most ten bytes of the fraction, without its
/// trailing zeros, and without the `.` when no fraction digit is left.
pub fn format_decimal_for_display(value: &str) -> (r: String)
    requires
        fraction_cut_on_boundary(value@),
    ensures
        r@ == decimal_display_text(value@),
{
    let v = chars_of(value);
    // find the first `.`
    let mut dot: usize = 0;
    while dot < v.len() && v[dot] != '.'
        invariant
            dot <= v.len(),
            v@ == value@,
            forall|j: int| 0 <= j < dot ==> v@[j] != '.',
        decreases v.len() - dot,
    {
        dot += 1;
    }
    if dot == v.len() {
        assert(first_dot(value@) is None);
        return value.to_owned();
    }
    assert(first_dot(value@) == Some(dot as int)) by {
        let c = choose|i: int| 0 <= i < value@.len() && value@[i] == '.' && forall|j: int| 0 <= j < i ==> value@[j] != '.';
        assert(c == dot);
    }
    let ghost f = value@.skip(dot as int + 1);
    // count the fraction characters that fit in ten bytes
    let mut end: usize = dot + 1;
    let mut budget: usize = 10;
    proof {
        assert(f.skip(0) =~= f);
    }
    while end < v.len() && char_utf8_len(v[end]) <= budget
        invariant
            dot + 1 <= end <= v.len(),
            v@ == value@,
            f == value@.skip(dot as int + 1),
            budget <= 10,
            chars_within(f, 10) == (end - dot - 1) + chars_within(f.skip(end - dot - 1), budget as nat),
        decreases v.len() - end,
    {
        proof {
            assert(f[end - dot - 1] == v@[end as int]);
            lemma_chars_within_step(f, end - dot - 1, budget as nat);
            assert(f.skip(end - dot - 1 + 1) =~= f.skip(end - dot));
        }
        budget = budget - char_utf8_len(v[end]);
        end += 1;
    }
    proof {
        if end < v.len() {
            assert(f.skip(end - dot - 1)[0] == v@[end as int]);
        } else {
            assert(f.skip(end - dot - 1).len() == 0);
        }
        assert(chars_within(f.skip(end - dot - 1), budget as nat) == 0);
    }
    // strip trailing zeros
    let mut last = end;
    proof {
        assert(f.take(chars_within(f, 10) as int) =~= v@.subrange(dot + 1, end as int));
    }
    while last > dot + 1 && v[last - 1] == '0'
        invariant
            dot + 1 <= last <= end <= v.len(),
            v@ == value@,
            without_trailing_zeros(v@.subrange(dot + 1, end as int)) == without_trailing_zeros(v@.subrange(dot + 1, last as int)),
        decreases last,
    {
        assert(v@.subrange(dot + 1, last as int).drop_last() =~= v@.subrange(dot + 1, last - 1));
        last -= 1;
    }
    proof {
        let k = v@.subrange(dot + 1, last as int);
        if k.len() > 0 {
            assert(k.last() == v@[last - 1]);
        }
        assert(without_trailing_zeros(k) == k);
    }
    let integer = string_from_range(&v, 0, dot);
    assert(v@.subrange(0, dot as int) =~= value@.take(dot as int));
    if last == dot + 1 {
        integer
    } else {
        let fraction = string_from_range(&v, dot + 1, last);
        integer.concat(".").concat(fraction.as_str())
    }
}


/// The lower-case form of `s` by the Unicode case mapping.
pub uninterp spec fn unicode_lowercase(s: Seq<char>) -> Seq<char>;

/// Every character of `s` is ASCII.
pub open spec fn ascii_text(s: Seq<char>) -> bool {
    forall|i: int| 0 <= i < s.len() ==> (#[trigger] s[i] as u32) < 128
}

/// `c` with an ASCII upper-case letter made lower-case.
pub open spec fn ascii_lower(c: char) -> char {
    if 'A' <= c <= 'Z' {
        ((c as int) + 32) as char
    } else {
        c
    }
}

/// `s` with every ASCII upper-case letter made lower-case.
pub open spec fn ascii_lowercase(s: Seq<char>) -> Seq<char> {
    s.map_values(|c: char| ascii_lower(c))
}

/// Wraps `str::to_lowercase`: the lower-case form of `s` by the Unicode case
/// mapping, named here; std documents that ASCII letters map to their
/// lower-case letters and other ASCII characters stay, so an ASCII text is
/// lowered letter by letter.
#[verifier::external_body]
fn to_lowercase(s: &str) -> (r: String)
    ensures
        r@ == unicode_lowercase(s@),
        ascii_text(s@) ==> r@ == ascii_lowercase(s@),
{
    s.to_lowercase()
}

/// `s` holds `q` as a run of consecutive characters.
pub open spec fn text_contains(s: Seq<char>, q: Seq<char>) -> bool {
    exists|i: int| 0 <= i && i + q.len() <= s.len() && #[trigger] s.subrange(i, i + q.len()) == q
}

/// Whether `s` holds `q` as a run of consecutive characters.
fn contains_text(s: &str, q: &str) -> (r: bool)
    ensures
        r == text_contains(s@, q@),
{
    let a = chars_of(s);
    let b = chars_of(q);
    if b.len() > a.len() {
        assert forall|i: int| 0 <= i && i + q@.len() <= s@.len() implies #[trigger] s@.subrange(i, i + q@.len()) != q@ by {}
        return false;
    }
    let mut i: usize = 0;
    while i <= a.len() - b.len()
        invariant
            a@ == s@,
            b@ == q@,
            b.len() <= a.len(),
            i <= a.len() - b.len() + 1,
            forall|k: int| 0 <= k < i ==> #[trigger] s@.subrange(k, k + q@.len()) != q@,
        decreases a.len() - i,
    {
        let mut j: usize = 0;
        while j < b.len() && a[i + j] == b[j]
            invariant
                a@ == s@,
                b@ == q@,
                i + b.len() <= a.len(),
                j <= b.len(),
                forall|m: int| 0 <= m < j ==> a@[i + m] == b@[m],
            decreases b.len() - j,
        {
            j += 1;
        }
        if j == b.len() {
            assert(s@.subrange(i as int, i + q@.len()) =~= q@);
            return true;
        }
        assert(s@.subrange(i as int, i + q@.len())[j as int] != q@[j as int]);
        i += 1;
    }
    false
}

/// The asset matches the query (already in lower case): its ISIN, symbol or
/// name, in lower case, holds it.
pub open spec fn asset_matches(a: crate::ledger::TransactionAssetView, query: Seq<char>) -> bool {
    ||| text_contains(unicode_lowercase(a.isin), query)
    ||| (a.symbol matches Some(s) && text_contains(unicode_lowercase(s), query))
    ||| (a.name matches Some(n) && text_contains(unicode_lowercase(n), query))
}

/// Whether the asset matches `query`, which is in lower case.
pub fn transaction_asset_matches_query(asset: &TransactionAsset, query: &str) -> (r: bool)
    ensures
        r == asset_matches(asset@, query@),
{
    if contains_text(to_lowercase(asset.isin.as_str()).as_str(), query) {
        return true;
    }
    let by_symbol = match &asset.symbol {
        Some(s) => contains_text(to_lowercase(s.as_str()).as_str(), query),
        None => false,
    };
    if by_symbol {
        return true;
    }
    match &asset.name {
        Some(n) => contains_text(to_lowercase(n.as_str()).as_str(), query),
        None => false,
    }
}

/// The most suggestions shown under the ISIN field.
pub const MAX_TRANSACTION_ASSET_SUGGESTIONS: usize = 6;

/// The positions of the assets that match `query`, in order.
pub open spec fn matching_positions(assets: Seq<crate::ledger::TransactionAssetView>, query: Seq<char>) -> Seq<int>
    decreases assets.len(),
{
    if assets.len() == 0 {
        Seq::empty()
    } else if asset_matches(assets.last(), query) {
        matching_positions(assets.drop_last(), query).push(assets.len() - 1)
    } else {
        matching_positions(assets.drop_last(), query)
    }
}

/// The positions of the suggested assets for what is typed in the ISIN field:
/// none when it is blank, else the first six assets that match its trimmed,
/// lower-case text.
pub open spec fn suggestion_positions(assets: Seq<crate::ledger::TransactionAssetView>, typed: Seq<char>) -> Seq<int> {
    let query = unicode_lowercase(trim(typed));
    if query.len() == 0 {
        Seq::empty()
    } else {
        let all = matching_positions(assets, query);
        all.take(if all.len() < 6 { all.len() as int } else { 6 })
    }
}

proof fn lemma_matching_positions_prefix(assets: Seq<crate::ledger::TransactionAssetView>, query: Seq<char>, n: int)
    requires
        0 <= n < assets.len(),
    ensures
        matching_positions(assets.take(n + 1), query) == if asset_matches(assets[n], query) {
            matching_positions(assets.take(n), query).push(n)
        } else {
            matching_positions(assets.take(n), query)
        },
{
    assert(assets.take(n + 1).drop_last() =~= assets.take(n));
    assert(assets.take(n + 1).last() == assets[n]);
}

proof fn lemma_matching_positions_grow(assets: Seq<crate::ledger::TransactionAssetView>, query: Seq<char>, n: int)
    requires
        0 <= n <= assets.len(),
    ensures
        matching_positions(assets.take(n), query).len() <= matching_positions(assets, query).len(),
        matching_positions(assets.take(n), query) == matching_positions(assets, query).take(matching_positions(assets.take(n), query).len() as int),
    decreases assets.len() - n,
{
    if n < assets.len() {
        lemma_matching_positions_grow(assets, query, n + 1);
        lemma_matching_positions_prefix(assets, query, n);
        let a = matching_positions(assets.take(n), query);
        let b = matching_positions(assets.take(n + 1), query);
        let all = matching_positions(assets, query);
        assert(b.take(a.len() as int) =~= a);
        assert(all.take(a.len() as int) =~= all.take(b.len() as int).take(a.len() as int));
    } else {
        assert(assets.take(n) =~= assets);
        assert(matching_positions(assets, query).take(matching_positions(assets, query).len() as int) =~= matching_positions(assets, query));
    }
}

/// The positions in `assets` of the suggestions for what is typed in the ISIN
/// field: none when it is blank, else the first six assets whose ISIN, symbol
/// or name, in lower case, holds the trimmed, lower-case text.
pub fn transaction_asset_suggestions(assets: &Vec<TransactionAsset>, typed: &str) -> (r: Vec<usize>)
    ensures
        r@.map_values(|i: usize| i as int) == suggestion_positions(crate::ledger::asset_views(assets@), typed@),
{
    let ghost views = crate::ledger::asset_views(assets@);
    let query = to_lowercase(trim_str(typed).as_str());
    let mut out: Vec<usize> = Vec::new();
    if query.as_str().is_empty() {
        assert(out@.map_values(|i: usize| i as int) =~= Seq::<int>::empty());
        return out;
    }
    let mut i: usize = 0;
    assert(views.take(0) =~= Seq::<crate::ledger::TransactionAssetView>::empty());
    while i < assets.len() && out.len() < MAX_TRANSACTION_ASSET_SUGGESTIONS
        invariant
            i <= assets.len(),
            views == crate::ledger::asset_views(assets@),
            query@ == unicode_lowercase(trim(typed@)),
            out@.map_values(|k: usize| k as int) == matching_positions(views.take(i as int), query@),
            out.len() <= 6,
        decreases assets.len() - i,
    {
        proof {
            lemma_matching_positions_prefix(views, query@, i as int);
        }
        assert(views[i as int] == assets@[i as int]@);
        if transaction_asset_matches_query(&assets[i], query.as_str()) {
            let ghost before = out@.map_values(|k: usize| k as int);
            out.push(i);
            assert(out@.map_values(|k: usize| k as int) =~= before.push(i as int));
        }
        i += 1;
    }
    proof {
        lemma_matching_positions_grow(views, query@, i as int);
        let all = matching_positions(views, query@);
        let got = out@.map_values(|k: usize| k as int);
        if i == assets.len() {
            assert(views.take(i as int) =~= views);
        }
        assert(got =~= all.take(if all.len() < 6 { all.len() as int } else { 6 }));
    }
    out
}

/// The label of a suggested asset: its name, else its symbol, else its ISIN;
/// then the symbol in brackets where it differs from that; then the ISIN.
pub open spec fn suggestion_label(a: crate::ledger::TransactionAssetView) -> Seq<char> {
    let title = match a.name {
        Some(n) => n,
        None => match a.symbol {
            Some(s) => s,
            None => a.isin,
        },
    };
    match a.symbol {
        Some(s) => if title != s {
            title + " ("@ + s + ") - "@ + a.isin
        } else {
            title + " - "@ + a.isin
        },
        None => title + " - "@ + a.isin,
    }
}

/// The label of a suggested asset.
pub fn transaction_asset_suggestion_label(asset: &TransactionAsset) -> (r: String)
    ensures
        r@ == suggestion_label(asset@),
{
    let title: &str = match &asset.name {
        Some(n) => n.as_str(),
        None => match &asset.symbol {
            Some(s) => s.as_str(),
            None => asset.isin.as_str(),
        },
    };
    match &asset.symbol {
        Some(s) => {
            if !str_eq(title, s.as_str()) {
                title.to_owned().concat(" (").concat(s.as_str()).concat(") - ").concat(asset.isin.as_str())
            } else {
                title.to_owned().concat(" - ").concat(asset.isin.as_str())
            }
        },
        None => title.to_owned().concat(" - ").concat(asset.isin.as_str()),
    }
}


/// The number of requests that were started and have not answered yet.
pub struct PendingRequests {
    count: usize,
}

impl PendingRequests {
    /// The count, as a number.
    pub closed spec fn count(&self) -> nat {
        self.count as nat
    }

    /// No pending request.
    pub fn new() -> (r: Self)
        ensures
            r.count() == 0,
    {
        PendingRequests { count: 0 }
    }

    /// The number of pending requests.
    pub fn get(&self) -> (r: usize)
        ensures
            r == self.count(),
    {
        self.count
    }

    /// One more request was started.
    pub fn increment(&mut self)
        requires
            old(self).count() < usize::MAX,
        ensures
            final(self).count() == old(self).count() + 1,
    {
        self.count = self.count + 1;
    }

    /// A request answered: one less is pending. Gives `false`, and counts
    /// nothing, when none was pending; the app shows that as an error.
    pub fn decrement(&mut self) -> (r: bool)
        ensures
            r == (old(self).count() > 0),
            final(self).count() == if r { old(self).count() - 1 } else { 0 },
    {
        if self.count > 0 {
            self.count = self.count - 1;
            true
        } else {
            false
        }
    }
}

/// The two decimal digits of `n`.
pub open spec fn two_digits(n: int) -> Seq<char> {
    seq![crate::text::digit_char((n / 10) as nat), crate::text::digit_char((n % 10) as nat)]
}

/// A time of day to the second, as `HH:MM:SS`.
pub open spec fn time_to_second_text(hour: int, minute: int, second: int) -> Seq<char> {
    two_digits(hour) + ":"@ + two_digits(minute) + ":"@ + two_digits(second)
}

/// The two decimal digits of `n`, pushed to `s`.
fn push_two_digits(s: &mut String, n: i8)
    requires
        0 <= n <= 99,
    ensures
        final(s)@ == old(s)@ + two_digits(n as int),
{
    let tens = n / 10;
    let ones = n % 10;
    let t = crate::text::u64_text(tens as u64);
    let o = crate::text::u64_text(ones as u64);
    assert(t@ =~= seq![crate::text::digit_char(tens as nat)]);
    assert(o@ =~= seq![crate::text::digit_char(ones as nat)]);
    s.append(t.as_str());
    s.append(o.as_str());
    assert(s@ =~= old(s)@ + two_digits(n as int));
}

/// A time of day to the second, as `HH:MM:SS` with two digits each.
pub fn format_time_to_second(hour: i8, minute: i8, second: i8) -> (r: String)
    requires
        0 <= hour <= 99,
        0 <= minute <= 99,
        0 <= second <= 99,
    ensures
        r@ == time_to_second_text(hour as int, minute as int, second as int),
{
    let mut s = String::new();
    push_two_digits(&mut s, hour);
    s.append(":");
    push_two_digits(&mut s, minute);
    s.append(":");
    push_two_digits(&mut s, second);
    assert(s@ =~= time_to_second_text(hour as int, minute as int, second as int));
    s
}

/// The quantity column of the transactions list: `+` before the quantity of a
/// purchase, `-` before that of a sale.
pub open spec fn signed_quantity_text(transaction_type: TransactionType, quantity: Seq<char>) -> Seq<char> {
    match transaction_type {
        TransactionType::Buy => "+"@ + quantity,
        TransactionType::Sell => "-"@ + quantity,
    }
}

/// The quantity of a listed transaction with the sign of its direction.
pub fn signed_quantity_label(transaction_type: TransactionType, quantity: &str) -> (r: String)
    ensures
        r@ == signed_quantity_text(transaction_type, quantity@),
{
    let mut s = match transaction_type {
        TransactionType::Buy => "+".to_owned(),
        TransactionType::Sell => "-".to_owned(),
    };
    proof {
        reveal_strlit("+");
        reveal_strlit("-");
    }
    s.append(quantity);
    s
}

/// A row of the allocation record page: an asset and the amount typed for it.
#[derive(Debug, Clone)]
pub struct PositionItem {
    pub asset_id: i64,
    pub label: String,
    pub amount: String,
}

impl PositionItem {
    /// The empty row of an asset: its name and reference value as label.
    pub fn for_asset(asset_id: i64, name: &str, reference_value: &str) -> (r: Self)
        ensures
            r.asset_id == asset_id,
            r.label@ == crate::desktop::position_label(name@, reference_value@),
            r.amount@.len() == 0,
    {
        PositionItem {
            asset_id,
            label: name.to_owned().concat(" (").concat(reference_value).concat(")"),
            amount: String::new(),
        }
    }
}

/// The sell quantities that were typed: those that are not blank, in order.
pub open spec fn typed_quantities(entries: Seq<(i64, Seq<char>)>) -> Seq<(i64, Seq<char>)>
    decreases entries.len(),
{
    if entries.len() == 0 {
        Seq::empty()
    } else if trim(entries.last().1).len() > 0 {
        typed_quantities(entries.drop_last()).push(entries.last())
    } else {
        typed_quantities(entries.drop_last())
    }
}

/// The sell quantities to send with a sale: the entries whose quantity is not
/// blank, in order.
pub fn sell_quantities_to_send(entries: &Vec<(i64, String)>) -> (r: Vec<(i64, String)>)
    requires
        crate::transactions::distinct_item_ids(entries@),
    ensures
        r@.map_values(|e: (i64, String)| (e.0, e.1@)) == typed_quantities(entries@.map_values(|e: (i64, String)| (e.0, e.1@))),
        crate::transactions::distinct_item_ids(r@),
{
    let ghost views = entries@.map_values(|e: (i64, String)| (e.0, e.1@));
    let mut out: Vec<(i64, String)> = Vec::new();
    let mut i: usize = 0;
    assert(views.take(0) =~= Seq::<(i64, Seq<char>)>::empty());
    while i < entries.len()
        invariant
            i <= entries.len(),
            views == entries@.map_values(|e: (i64, String)| (e.0, e.1@)),
            out@.map_values(|e: (i64, String)| (e.0, e.1@)) == typed_quantities(views.take(i as int)),
            crate::transactions::distinct_item_ids(entries@),
            crate::transactions::distinct_item_ids(out@),
            forall|k: int| 0 <= k < out.len() ==> exists|j: int| 0 <= j < i && (#[trigger] out@[k]).0 == #[trigger] entries@[j].0,
        decreases entries.len() - i,
    {
        assert(views.take(i as int + 1).drop_last() =~= views.take(i as int));
        assert(views.take(i as int + 1).last() == views[i as int]);
        let (id, quantity) = &entries[i];
        if !trim_str(quantity.as_str()).as_str().is_empty() {
            let ghost before = out@.map_values(|e: (i64, String)| (e.0, e.1@));
            let ghost old_out = out@;
            proof {
                assert forall|k: int| 0 <= k < old_out.len() implies old_out[k].0 != entries@[i as int].0 by {
                    let j = choose|j: int| 0 <= j < i && (#[trigger] old_out[k]).0 == #[trigger] entries@[j].0;
                    assert(entries@[j].0 != entries@[i as int].0);
                }
            }
            out.push((*id, quantity.clone()));
            proof {
                assert forall|k: int| 0 <= k < out.len() implies exists|j: int| 0 <= j < i + 1 && (#[trigger] out@[k]).0 == #[trigger] entries@[j].0 by {
                    if k < old_out.len() {
                        assert(out@[k] == old_out[k]);
                        let j = choose|j: int| 0 <= j < i && (#[trigger] old_out[k]).0 == #[trigger] entries@[j].0;
                        assert(out@[k].0 == entries@[j].0);
                    } else {
                        assert(out@[k].0 == entries@[i as int].0);
                    }
                }
                assert forall|a: int, b: int| 0 <= a < b < out.len() implies (#[trigger] out@[a]).0 != (#[trigger] out@[b]).0 by {
                    if b < old_out.len() {
                        assert(out@[a] == old_out[a] && out@[b] == old_out[b]);
                    } else {
                        assert(out@[a] == old_out[a]);
                    }
                }
            }
            assert(out@.map_values(|e: (i64, String)| (e.0, e.1@)) =~= before.push(views[i as int]));
        }
        i += 1;
    }
    assert(views.take(entries.len() as int) =~= views);
    out
}


/// The pages of the app.
#[derive(Debug, Clone, Copy, PartialEq, Eq, Structural)]
pub enum Page {
    MainMenu,
    AllocationDiagram,
    AddAsset,
    ConfigureCategories,
    AddAllocationRecord,
    LogBuyTransaction,
    Transactions,
    LogSellTransaction,
    TransactionAssets,
    ImportTransactionAssets,
}

/// The menu button of `button` shows as selected while `current` is shown:
/// its own page, and for the transactions button also the pages that log a
/// purchase or a sale, and for the transaction assets button the import page.
pub open spec fn button_selected(current: Page, button: Page) -> bool {
    ||| current == button
    ||| (button == Page::Transactions && (current == Page::LogBuyTransaction || current == Page::LogSellTransaction))
    ||| (button == Page::TransactionAssets && current == Page::ImportTransactionAssets)
}

/// Whether the menu button of `button` shows as selected on page `current`.
pub fn page_button_selected(current: Page, button: Page) -> (r: bool)
    ensures
        r == button_selected(current, button),
{
    current == button
        || (button == Page::Transactions && (current == Page::LogBuyTransaction || current == Page::LogSellTransaction))
        || (button == Page::TransactionAssets && current == Page::ImportTransactionAssets)
}

/// The message after the categories were saved: all of them, or part of them
/// with the store's first error.
pub open spec fn configure_message(first_error: Option<Seq<char>>) -> Seq<char> {
    match first_error {
        Some(e) => "Partial save. First error: "@ + e,
        None => "All saved"@,
    }
}

/// The message after the categories were saved.
pub fn configure_categories_message(first_error: Option<&str>) -> (r: String)
    ensures
        r@ == configure_message(match first_error { Some(e) => Some(e@), None => None }),
{
    match first_error {
        Some(e) => "Partial save. First error: ".to_owned().concat(e),
        None => "All saved".to_owned(),
    }
}

} // verus!
