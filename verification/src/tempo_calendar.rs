//! Reading iCalendar (ICS) text: line unfolding, property values with
//! their time zones, recurrence rules and the event sections. The times
//! these hold are read in `ics_time`.

use crate::text::{
    is_whitespace, is_ws, parse_u32, parse_usize, push_char, push_str, str_eq, substring, trim, trimmed, u32_of,
    usize_of, views,
};
use vstd::prelude::*;

verus! {

/// The position of the first `c` in `s`, or its length when there is none.
pub open spec fn first_index(s: Seq<char>, c: char) -> int
    decreases s.len(),
{
    if s.len() == 0 {
        0
    } else if s[0] == c {
        0
    } else {
        1 + first_index(s.drop_first(), c)
    }
}

pub proof fn lemma_first_index_bounds(s: Seq<char>, c: char)
    ensures
        0 <= first_index(s, c) <= s.len(),
        first_index(s, c) < s.len() ==> s[first_index(s, c)] == c,
        forall|j: int| 0 <= j < first_index(s, c) ==> s[j] != c,
    decreases s.len(),
{
    if s.len() > 0 && s[0] != c {
        lemma_first_index_bounds(s.drop_first(), c);
        assert forall|j: int| 0 <= j < first_index(s, c) implies s[j] != c by {
            if j > 0 {
                assert(s[j] == s.drop_first()[j - 1]);
            }
        }
    }
}

proof fn lemma_first_index_is(s: Seq<char>, c: char, k: int)
    requires
        0 <= k <= s.len(),
        forall|j: int| 0 <= j < k ==> s[j] != c,
        k < s.len() ==> s[k] == c,
    ensures
        first_index(s, c) == k,
    decreases k,
{
    if k > 0 {
        lemma_first_index_is(s.drop_first(), c, k - 1);
    }
}

/// The pieces of `s` between the `c`s, as `str::split` gives them.
pub open spec fn split_char(s: Seq<char>, c: char) -> Seq<Seq<char>>
    decreases s.len(),
{
    let i = first_index(s, c);
    if 0 <= i < s.len() {
        seq![s.take(i)] + split_char(s.skip(i + 1), c)
    } else {
        seq![s]
    }
}

/// A line without the `\r` of a `\r\n` ending.
pub open spec fn strip_cr(l: Seq<char>) -> Seq<char> {
    if l.len() > 0 && l.last() == '\r' {
        l.drop_last()
    } else {
        l
    }
}

/// The lines of `s`, as `str::lines` gives them: split at `\n`, a `\r`
/// before it dropped, no empty line after a final `\n`.
pub open spec fn lines_of(s: Seq<char>) -> Seq<Seq<char>>
    decreases s.len(),
{
    if s.len() == 0 {
        Seq::empty()
    } else {
        let i = first_index(s, '\n');
        if 0 <= i < s.len() {
            seq![strip_cr(s.take(i))] + lines_of(s.skip(i + 1))
        } else {
            seq![s]
        }
    }
}

/// The pieces of `s` between the `c`s.
pub fn split_on(s: &str, c: char) -> (r: Vec<String>)
    ensures
        crate::text::views(r@) == split_char(s@, c),
{
    let n = s.unicode_len();
    let mut r: Vec<String> = Vec::new();
    let mut p: usize = 0;
    let mut q: usize = 0;
    assert(s@.skip(0) =~= s@);
    assert(crate::text::views(r@) + split_char(s@, c) =~= split_char(s@, c));
    while q < n
        invariant
            n == s@.len(),
            p <= q <= n,
            forall|j: int| p <= j < q ==> s@[j] != c,
            crate::text::views(r@) + split_char(s@.skip(p as int), c) == split_char(s@, c),
        decreases n - q,
    {
        if s.get_char(q) == c {
            let piece = substring(s, p, q);
            proof {
                let t = s@.skip(p as int);
                lemma_first_index_is(t, c, q - p);
                assert(t.take(q - p) =~= s@.subrange(p as int, q as int));
                assert(t.skip(q - p + 1) =~= s@.skip(q + 1));
                let before = crate::text::views(r@);
                assert(split_char(t, c) == seq![t.take(q - p)] + split_char(t.skip(q - p + 1), c));
                assert(crate::text::views(r@.push(piece)) =~= before.push(piece@));
                assert(before.push(piece@) + split_char(s@.skip(q + 1), c) =~= before + split_char(t, c));
            }
            r.push(piece);
            p = q + 1;
        }
        q = q + 1;
    }
    let last = substring(s, p, n);
    proof {
        let t = s@.skip(p as int);
        lemma_first_index_is(t, c, n - p);
        assert(t =~= s@.subrange(p as int, n as int));
        let before = crate::text::views(r@);
        assert(crate::text::views(r@.push(last)) =~= before.push(last@));
        assert(before.push(last@) =~= before + split_char(t, c));
    }
    r.push(last);
    r
}

/// The lines of `s`, as `str::lines` gives them.
pub fn split_lines(s: &str) -> (r: Vec<String>)
    ensures
        crate::text::views(r@) == lines_of(s@),
{
    let n = s.unicode_len();
    let mut r: Vec<String> = Vec::new();
    let mut p: usize = 0;
    let mut q: usize = 0;
    assert(s@.skip(0) =~= s@);
    assert(crate::text::views(r@) + lines_of(s@) =~= lines_of(s@));
    while q < n
        invariant
            n == s@.len(),
            p <= q <= n,
            forall|j: int| p <= j < q ==> s@[j] != '\n',
            crate::text::views(r@) + lines_of(s@.skip(p as int)) == lines_of(s@),
        decreases n - q,
    {
        if s.get_char(q) == '\n' {
            let end = if q > p && s.get_char(q - 1) == '\r' {
                q - 1
            } else {
                q
            };
            let piece = substring(s, p, end);
            proof {
                let t = s@.skip(p as int);
                lemma_first_index_is(t, '\n', q - p);
                assert(t.take(q - p) =~= s@.subrange(p as int, q as int));
                assert(strip_cr(t.take(q - p)) =~= s@.subrange(p as int, end as int));
                assert(t.skip(q - p + 1) =~= s@.skip(q + 1));
                let before = crate::text::views(r@);
                assert(lines_of(t) == seq![strip_cr(t.take(q - p))] + lines_of(t.skip(q - p + 1)));
                assert(crate::text::views(r@.push(piece)) =~= before.push(piece@));
                assert(before.push(piece@) + lines_of(s@.skip(q + 1)) =~= before + lines_of(t));
            }
            r.push(piece);
            p = q + 1;
        }
        q = q + 1;
    }
    if p < n {
        let last = substring(s, p, n);
        proof {
            let t = s@.skip(p as int);
            lemma_first_index_is(t, '\n', n - p);
            assert(t =~= s@.subrange(p as int, n as int));
            let before = crate::text::views(r@);
            assert(crate::text::views(r@.push(last)) =~= before.push(last@));
            assert(before.push(last@) =~= before + lines_of(t));
        }
        r.push(last);
    } else {
        assert(s@.skip(p as int).len() == 0);
        assert(crate::text::views(r@) + lines_of(s@.skip(p as int)) =~= crate::text::views(r@));
    }
    r
}

/// `s` begins with `p`.
pub open spec fn has_prefix(s: Seq<char>, p: Seq<char>) -> bool {
    p.len() <= s.len() && s.take(p.len() as int) == p
}

/// Whether `s` begins with `p`.
pub fn starts_with(s: &str, p: &str) -> (r: bool)
    ensures
        r == has_prefix(s@, p@),
{
    let n = s.unicode_len();
    let m = p.unicode_len();
    if m > n {
        return false;
    }
    let mut i: usize = 0;
    while i < m
        invariant
            n == s@.len(),
            m == p@.len(),
            m <= n,
            i <= m,
            forall|j: int| 0 <= j < i ==> s@[j] == p@[j],
        decreases m - i,
    {
        if s.get_char(i) != p.get_char(i) {
            assert(s@.take(m as int)[i as int] != p@[i as int]);
            return false;
        }
        i = i + 1;
    }
    assert(s@.take(m as int) =~= p@);
    true
}

/// `s` without the white space at its start, as `str::trim_start` leaves it.
pub open spec fn trim_start_ws(s: Seq<char>) -> Seq<char>
    decreases s.len(),
{
    if s.len() > 0 && is_ws(s[0]) {
        trim_start_ws(s.drop_first())
    } else {
        s
    }
}

proof fn lemma_trim_start(s: Seq<char>, a: int)
    requires
        0 <= a <= s.len(),
        forall|j: int| 0 <= j < a ==> is_ws(#[trigger] s[j]),
        a < s.len() ==> !is_ws(s[a]),
    ensures
        trim_start_ws(s) == s.skip(a),
    decreases a,
{
    if a > 0 {
        lemma_trim_start(s.drop_first(), a - 1);
        assert(s.drop_first().skip(a - 1) =~= s.skip(a));
    } else {
        assert(s.skip(0) =~= s);
    }
}

/// `s` without the white space at its start.
pub fn trim_start(s: &str) -> (r: String)
    ensures
        r@ == trim_start_ws(s@),
{
    let n = s.unicode_len();
    let mut a: usize = 0;
    while a < n && is_whitespace(s.get_char(a))
        invariant
            n == s@.len(),
            a <= n,
            forall|j: int| 0 <= j < a ==> is_ws(#[trigger] s@[j]),
        decreases n - a,
    {
        a = a + 1;
    }
    proof {
        lemma_trim_start(s@, a as int);
        assert(s@.skip(a as int) =~= s@.subrange(a as int, n as int));
    }
    substring(s, a, n)
}

/// The unfolded text of ICS lines: a line that begins with a space or a tab
/// continues the one before, without its leading white space; the others
/// are joined with `\n`.
pub open spec fn unfold(ls: Seq<Seq<char>>) -> Seq<char>
    decreases ls.len(),
{
    if ls.len() == 0 {
        Seq::empty()
    } else {
        let prev = unfold(ls.drop_last());
        let l = ls.last();
        if l.len() > 0 && (l[0] == ' ' || l[0] == '\t') {
            prev + trim_start_ws(l)
        } else if prev.len() == 0 {
            l
        } else {
            prev + seq!['\n'] + l
        }
    }
}

/// Unfolds the lines of ICS text.
pub fn unfold_ics_lines(raw: &str) -> (r: String)
    ensures
        r@ == unfold(lines_of(raw@)),
{
    let lines = split_lines(raw);
    let ghost ls = crate::text::views(lines@);
    let mut out = String::new();
    let mut i: usize = 0;
    while i < lines.len()
        invariant
            ls == crate::text::views(lines@),
            ls == lines_of(raw@),
            i <= lines@.len(),
            out@ == unfold(ls.take(i as int)),
        decreases lines@.len() - i,
    {
        let l = lines[i].as_str();
        proof {
            assert(ls.take(i + 1).drop_last() =~= ls.take(i as int));
            assert(ls.take(i + 1).last() == l@);
        }
        if l.unicode_len() > 0 && (l.get_char(0) == ' ' || l.get_char(0) == '\t') {
            let t = trim_start(l);
            push_str(&mut out, t.as_str());
        } else {
            if out.unicode_len() > 0 {
                push_char(&mut out, '\n');
            }
            push_str(&mut out, l);
        }
        proof {
            assert(out@ =~= unfold(ls.take(i + 1)));
        }
        i = i + 1;
    }
    assert(ls.take(lines@.len() as int) =~= ls);
    out
}

/// The first line with the prefix.
pub open spec fn first_with_prefix(ls: Seq<Seq<char>>, key: Seq<char>) -> Option<Seq<char>>
    decreases ls.len(),
{
    if ls.len() == 0 {
        None
    } else if has_prefix(ls[0], key) {
        Some(ls[0])
    } else {
        first_with_prefix(ls.drop_first(), key)
    }
}

/// The value of a property: on the first line that begins with the key,
/// the trimmed text after its first `:`; none when that line has no `:`.
pub open spec fn ics_value(section: Seq<char>, key: Seq<char>) -> Option<Seq<char>> {
    match first_with_prefix(lines_of(section), key) {
        Some(l) => {
            let i = first_index(l, ':');
            if i < l.len() {
                Some(trimmed(l.skip(i + 1)))
            } else {
                None
            }
        },
        None => None,
    }
}

fn colon_split(l: &str) -> (r: Option<(String, String)>)
    ensures
        ({
            let i = first_index(l@, ':');
            match r {
                Some((a, b)) => i < l@.len() && a@ == l@.take(i) && b@ == l@.skip(i + 1),
                None => i >= l@.len(),
            }
        }),
{
    let n = l.unicode_len();
    let mut i: usize = 0;
    while i < n
        invariant
            n == l@.len(),
            i <= n,
            forall|j: int| 0 <= j < i ==> l@[j] != ':',
        decreases n - i,
    {
        if l.get_char(i) == ':' {
            proof {
                lemma_first_index_is(l@, ':', i as int);
                assert(l@.take(i as int) =~= l@.subrange(0, i as int));
                assert(l@.skip(i + 1) =~= l@.subrange(i + 1, n as int));
            }
            return Some((substring(l, 0, i), substring(l, i + 1, n)));
        }
        i = i + 1;
    }
    proof {
        lemma_first_index_is(l@, ':', n as int);
    }
    None
}

/// The value of a property of an event section.
#[verifier::spinoff_prover]
pub fn get_ics_value(section: &str, key: &str) -> (r: Option<String>)
    ensures
        match ics_value(section@, key@) {
            Some(v) => r matches Some(s) && s@ == v,
            None => r is None,
        },
{
    let lines = split_lines(section);
    let ghost ls = crate::text::views(lines@);
    let mut i: usize = 0;
    assert(ls.skip(0) =~= ls);
    while i < lines.len()
        invariant
            ls == crate::text::views(lines@),
            ls == lines_of(section@),
            i <= lines@.len(),
            first_with_prefix(ls, key@) == first_with_prefix(ls.skip(i as int), key@),
        decreases lines@.len() - i,
    {
        assert(ls.skip(i as int).drop_first() =~= ls.skip(i + 1));
        assert(ls.skip(i as int)[0] == lines@[i as int]@);
        if starts_with(lines[i].as_str(), key) {
            return match colon_split(lines[i].as_str()) {
                Some((_, value)) => Some(trim(value.as_str())),
                None => None,
            };
        }
        i = i + 1;
    }
    None
}

/// The first `;`-separated parameter `TZID=...`, its value.
pub open spec fn first_tzid(parts: Seq<Seq<char>>) -> Option<Seq<char>>
    decreases parts.len(),
{
    if parts.len() == 0 {
        None
    } else if has_prefix(parts[0], "TZID="@) {
        Some(parts[0].skip(5))
    } else {
        first_tzid(parts.drop_first())
    }
}

/// The value of a property and its time zone: on the first line with a `:`
/// whose part before it begins with the key, the trimmed value and the
/// `TZID` parameter, if any.
pub open spec fn value_and_tzid(ls: Seq<Seq<char>>, key: Seq<char>) -> Option<(Seq<char>, Option<Seq<char>>)>
    decreases ls.len(),
{
    if ls.len() == 0 {
        None
    } else {
        let l = ls[0];
        let i = first_index(l, ':');
        if i < l.len() && has_prefix(l.take(i), key) {
            Some((trimmed(l.skip(i + 1)), first_tzid(split_char(l.take(i), ';'))))
        } else {
            value_and_tzid(ls.drop_first(), key)
        }
    }
}

fn tzid_of(prop: &str) -> (r: Option<String>)
    ensures
        match first_tzid(split_char(prop@, ';')) {
            Some(v) => r matches Some(s) && s@ == v,
            None => r is None,
        },
{
    let parts = split_on(prop, ';');
    let ghost ps = crate::text::views(parts@);
    let mut i: usize = 0;
    assert(ps.skip(0) =~= ps);
    proof {
        reveal_strlit("TZID=");
    }
    while i < parts.len()
        invariant
            ps == crate::text::views(parts@),
            ps == split_char(prop@, ';'),
            i <= parts@.len(),
            first_tzid(ps) == first_tzid(ps.skip(i as int)),
            "TZID="@.len() == 5,
        decreases parts@.len() - i,
    {
        assert(ps.skip(i as int).drop_first() =~= ps.skip(i + 1));
        assert(ps.skip(i as int)[0] == parts@[i as int]@);
        let p = parts[i].as_str();
        if starts_with(p, "TZID=") {
            let n = p.unicode_len();
            assert(p@.skip(5) =~= p@.subrange(5, n as int));
            return Some(substring(p, 5, n));
        }
        i = i + 1;
    }
    None
}

/// The value of a property of an event section and its time zone.
#[verifier::spinoff_prover]
pub fn get_ics_value_and_tzid(section: &str, key: &str) -> (r: Option<(String, Option<String>)>)
    ensures
        match value_and_tzid(lines_of(section@), key@) {
            Some((v, tz)) => r matches Some((a, b)) && a@ == v && match tz {
                Some(t) => b matches Some(x) && x@ == t,
                None => b is None,
            },
            None => r is None,
        },
{
    let lines = split_lines(section);
    let ghost ls = crate::text::views(lines@);
    let mut i: usize = 0;
    assert(ls.skip(0) =~= ls);
    while i < lines.len()
        invariant
            ls == crate::text::views(lines@),
            ls == lines_of(section@),
            i <= lines@.len(),
            value_and_tzid(ls, key@) == value_and_tzid(ls.skip(i as int), key@),
        decreases lines@.len() - i,
    {
        assert(ls.skip(i as int).drop_first() =~= ls.skip(i + 1));
        assert(ls.skip(i as int)[0] == lines@[i as int]@);
        if let Some((prop, value)) = colon_split(lines[i].as_str()) {
            if starts_with(prop.as_str(), key) {
                let tz = tzid_of(prop.as_str());
                return Some((trim(value.as_str()), tz));
            }
        }
        i = i + 1;
    }
    None
}

/// A day of the week, as a recurrence rule names it.
#[derive(Clone, Copy, PartialEq, Eq, Structural, Debug)]
pub enum IcsWeekday {
    Mon,
    Tue,
    Wed,
    Thu,
    Fri,
    Sat,
    Sun,
}

/// The day of a two-letter `BYDAY` name.
pub open spec fn weekday_of(v: Seq<char>) -> Option<IcsWeekday> {
    if v == "MO"@ {
        Some(IcsWeekday::Mon)
    } else if v == "TU"@ {
        Some(IcsWeekday::Tue)
    } else if v == "WE"@ {
        Some(IcsWeekday::Wed)
    } else if v == "TH"@ {
        Some(IcsWeekday::Thu)
    } else if v == "FR"@ {
        Some(IcsWeekday::Fri)
    } else if v == "SA"@ {
        Some(IcsWeekday::Sat)
    } else if v == "SU"@ {
        Some(IcsWeekday::Sun)
    } else {
        None
    }
}

/// The day of a two-letter `BYDAY` name.
pub fn parse_weekday(v: &str) -> (r: Option<IcsWeekday>)
    ensures
        r == weekday_of(v@),
{
    if str_eq(v, "MO") {
        Some(IcsWeekday::Mon)
    } else if str_eq(v, "TU") {
        Some(IcsWeekday::Tue)
    } else if str_eq(v, "WE") {
        Some(IcsWeekday::Wed)
    } else if str_eq(v, "TH") {
        Some(IcsWeekday::Thu)
    } else if str_eq(v, "FR") {
        Some(IcsWeekday::Fri)
    } else if str_eq(v, "SA") {
        Some(IcsWeekday::Sat)
    } else if str_eq(v, "SU") {
        Some(IcsWeekday::Sun)
    } else {
        None
    }
}

/// A value is a bare date: eight ASCII digits (white space around them
/// would already fail the digit test).
pub fn is_ics_date_only(value: &str) -> (r: bool)
    ensures
        r == (value@.len() == 8 && crate::text::all_digits(value@)),
{
    let n = value.unicode_len();
    let mut i: usize = 0;
    while i < n
        invariant
            n == value@.len(),
            i <= n,
            forall|j: int| 0 <= j < i ==> '0' <= #[trigger] value@[j] && value@[j] <= '9',
        decreases n - i,
    {
        let c = value.get_char(i);
        if c < '0' || c > '9' {
            return false;
        }
        i = i + 1;
    }
    n == 8
}

/// How often a rule repeats.
#[derive(Clone, Copy, PartialEq, Eq, Structural, Debug)]
pub enum Frequency {
    Daily,
    Weekly,
    Monthly,
    Yearly,
}

/// A recurrence rule; `until` is kept as the rule's text, for the caller's
/// date parser.
pub struct RRule {
    pub freq: Frequency,
    pub interval: u32,
    pub count: Option<usize>,
    pub until: Option<String>,
    pub byday: Vec<IcsWeekday>,
}

/// The frequency of a `FREQ` value; unknown ones are weekly.
pub open spec fn freq_of(v: Seq<char>) -> Frequency {
    if v == "DAILY"@ {
        Frequency::Daily
    } else if v == "WEEKLY"@ {
        Frequency::Weekly
    } else if v == "MONTHLY"@ {
        Frequency::Monthly
    } else if v == "YEARLY"@ {
        Frequency::Yearly
    } else {
        Frequency::Weekly
    }
}

/// The known days among `BYDAY` names, in order.
pub open spec fn weekdays(ps: Seq<Seq<char>>) -> Seq<IcsWeekday>
    decreases ps.len(),
{
    if ps.len() == 0 {
        Seq::empty()
    } else {
        weekdays(ps.drop_last()) + match weekday_of(ps.last()) {
            Some(d) => seq![d],
            None => Seq::empty(),
        }
    }
}

/// A rule as read so far: frequency, interval, count, until, days.
pub type RuleState = (Frequency, u32, Option<usize>, Option<Seq<char>>, Seq<IcsWeekday>);

/// Reading one `;`-separated part of a rule; unknown parts change nothing,
/// and a later part of the same name replaces an earlier one.
pub open spec fn rule_step(st: RuleState, part: Seq<char>) -> RuleState {
    if has_prefix(part, "FREQ="@) {
        (freq_of(part.skip(5)), st.1, st.2, st.3, st.4)
    } else if has_prefix(part, "INTERVAL="@) {
        (
            st.0,
            match u32_of(part.skip(9)) {
                Some(v) => v,
                None => 1u32,
            },
            st.2,
            st.3,
            st.4,
        )
    } else if has_prefix(part, "COUNT="@) {
        (st.0, st.1, usize_of(part.skip(6)), st.3, st.4)
    } else if has_prefix(part, "UNTIL="@) {
        (st.0, st.1, st.2, Some(part.skip(6)), st.4)
    } else if has_prefix(part, "BYDAY="@) {
        (st.0, st.1, st.2, st.3, weekdays(split_char(part.skip(6), ',')))
    } else {
        st
    }
}

/// A rule read part by part, from weekly, every time, no end, every day.
pub open spec fn rule_of(parts: Seq<Seq<char>>) -> RuleState
    decreases parts.len(),
{
    if parts.len() == 0 {
        (Frequency::Weekly, 1u32, None, None, Seq::empty())
    } else {
        rule_step(rule_of(parts.drop_last()), parts.last())
    }
}

fn parse_freq(v: &str) -> (r: Frequency)
    ensures
        r == freq_of(v@),
{
    if str_eq(v, "DAILY") {
        Frequency::Daily
    } else if str_eq(v, "WEEKLY") {
        Frequency::Weekly
    } else if str_eq(v, "MONTHLY") {
        Frequency::Monthly
    } else if str_eq(v, "YEARLY") {
        Frequency::Yearly
    } else {
        Frequency::Weekly
    }
}

fn parse_days(v: &str) -> (r: Vec<IcsWeekday>)
    ensures
        r@ == weekdays(split_char(v@, ',')),
{
    let parts = split_on(v, ',');
    let ghost ps = views(parts@);
    let mut r: Vec<IcsWeekday> = Vec::new();
    let mut i: usize = 0;
    while i < parts.len()
        invariant
            ps == views(parts@),
            ps == split_char(v@, ','),
            i <= parts@.len(),
            r@ == weekdays(ps.take(i as int)),
        decreases parts@.len() - i,
    {
        assert(ps.take(i + 1).drop_last() =~= ps.take(i as int));
        assert(ps.take(i + 1).last() == parts@[i as int]@);
        match parse_weekday(parts[i].as_str()) {
            Some(d) => {
                r.push(d);
            },
            None => {},
        }
        proof {
            assert(r@ =~= weekdays(ps.take(i + 1)));
        }
        i = i + 1;
    }
    assert(ps.take(parts@.len() as int) =~= ps);
    r
}

fn rest_after(p: &str, k: usize) -> (r: String)
    requires
        k <= p@.len(),
    ensures
        r@ == p@.skip(k as int),
{
    let n = p.unicode_len();
    assert(p@.skip(k as int) =~= p@.subrange(k as int, n as int));
    substring(p, k, n)
}

/// The rule that the text of a recurrence rule writes.
pub open spec fn rule_read(raw: Seq<char>, r: RRule) -> bool {
    let st = rule_of(split_char(raw, ';'));
    &&& r.freq == st.0
    &&& r.interval == st.1
    &&& r.count == st.2
    &&& match st.3 {
        Some(u) => r.until matches Some(x) && x@ == u,
        None => r.until is None,
    }
    &&& r.byday@ == st.4
}

/// Reads a recurrence rule.
pub fn parse_rrule(raw: &str) -> (r: RRule)
    ensures
        rule_read(raw@, r),
{
    proof {
        reveal_strlit("FREQ=");
        reveal_strlit("INTERVAL=");
        reveal_strlit("COUNT=");
        reveal_strlit("UNTIL=");
        reveal_strlit("BYDAY=");
    }
    let parts = split_on(raw, ';');
    let ghost ps = views(parts@);
    let mut freq = Frequency::Weekly;
    let mut interval: u32 = 1;
    let mut count: Option<usize> = None;
    let mut until: Option<String> = None;
    let mut byday: Vec<IcsWeekday> = Vec::new();
    let mut i: usize = 0;
    while i < parts.len()
        invariant
            ps == views(parts@),
            ps == split_char(raw@, ';'),
            i <= parts@.len(),
            ({
                let st = rule_of(ps.take(i as int));
                &&& freq == st.0
                &&& interval == st.1
                &&& count == st.2
                &&& match st.3 {
                    Some(u) => until matches Some(x) && x@ == u,
                    None => until is None,
                }
                &&& byday@ == st.4
            }),
        decreases parts@.len() - i,
    {
        assert(ps.take(i + 1).drop_last() =~= ps.take(i as int));
        assert(ps.take(i + 1).last() == parts@[i as int]@);
        let p = parts[i].as_str();
        proof {
            reveal_strlit("FREQ=");
            reveal_strlit("INTERVAL=");
            reveal_strlit("COUNT=");
            reveal_strlit("UNTIL=");
            reveal_strlit("BYDAY=");
        }
        if starts_with(p, "FREQ=") {
            let v = rest_after(p, 5);
            freq = parse_freq(v.as_str());
        } else if starts_with(p, "INTERVAL=") {
            let v = rest_after(p, 9);
            interval = match parse_u32(v.as_str()) {
                Some(x) => x,
                None => 1,
            };
        } else if starts_with(p, "COUNT=") {
            let v = rest_after(p, 6);
            count = parse_usize(v.as_str());
        } else if starts_with(p, "UNTIL=") {
            until = Some(rest_after(p, 6));
        } else if starts_with(p, "BYDAY=") {
            let v = rest_after(p, 6);
            byday = parse_days(v.as_str());
        }
        i = i + 1;
    }
    assert(ps.take(parts@.len() as int) =~= ps);
    RRule { freq, interval, count, until, byday }
}

/// `pat` occurs in `s` at `j`.
pub open spec fn matches_at(s: Seq<char>, pat: Seq<char>, j: int) -> bool {
    0 <= j && j + pat.len() <= s.len() && s.subrange(j, j + pat.len()) == pat
}

/// The position of the first `pat` in `s`, or its length when there is
/// none.
pub open spec fn first_sub(s: Seq<char>, pat: Seq<char>) -> int
    decreases s.len(),
{
    if s.len() < pat.len() {
        s.len() as int
    } else if s.take(pat.len() as int) == pat {
        0
    } else if s.len() == 0 {
        0
    } else {
        1 + first_sub(s.drop_first(), pat)
    }
}

proof fn lemma_first_sub(s: Seq<char>, pat: Seq<char>, k: int)
    requires
        pat.len() > 0,
        0 <= k <= s.len(),
        forall|j: int| 0 <= j < k ==> !matches_at(s, pat, j),
        k < s.len() ==> matches_at(s, pat, k),
    ensures
        first_sub(s, pat) == k,
    decreases k,
{
    if k == 0 {
        if s.len() > 0 {
            assert(s.take(pat.len() as int) =~= s.subrange(0, pat.len() as int));
        }
    } else {
        if s.len() >= pat.len() {
            assert(!matches_at(s, pat, 0));
            assert(s.take(pat.len() as int) =~= s.subrange(0, pat.len() as int));
            let t = s.drop_first();
            assert forall|j: int| 0 <= j < k - 1 implies !matches_at(t, pat, j) by {
                assert(!matches_at(s, pat, j + 1));
                if j + pat.len() <= t.len() {
                    assert(t.subrange(j, j + pat.len()) =~= s.subrange(j + 1, j + 1 + pat.len()));
                }
            }
            if k - 1 < t.len() {
                assert(matches_at(s, pat, k));
                assert(t.subrange(k - 1, k - 1 + pat.len()) =~= s.subrange(k, k + pat.len()));
            }
            lemma_first_sub(t, pat, k - 1);
        }
    }
}

/// The pieces of `s` between the (leftmost, non-overlapping) `pat`s, as
/// `str::split` with a string pattern gives them.
pub open spec fn split_str(s: Seq<char>, pat: Seq<char>) -> Seq<Seq<char>>
    decreases s.len(),
{
    let i = first_sub(s, pat);
    if pat.len() > 0 && 0 <= i && i + pat.len() <= s.len() {
        seq![s.take(i)] + split_str(s.skip(i + pat.len()), pat)
    } else {
        seq![s]
    }
}

fn match_here(s: &str, pat: &str, q: usize) -> (r: bool)
    requires
        q <= s@.len(),
    ensures
        r == matches_at(s@, pat@, q as int),
{
    let n = s.unicode_len();
    let m = pat.unicode_len();
    if m > n - q {
        return false;
    }
    let mut i: usize = 0;
    while i < m
        invariant
            n == s@.len(),
            m == pat@.len(),
            q + m <= n,
            i <= m,
            forall|j: int| 0 <= j < i ==> s@[q + j] == pat@[j],
        decreases m - i,
    {
        if s.get_char(q + i) != pat.get_char(i) {
            assert(s@.subrange(q as int, q + m)[i as int] != pat@[i as int]);
            return false;
        }
        i = i + 1;
    }
    assert(s@.subrange(q as int, q + m) =~= pat@);
    true
}

/// The pieces of `s` between the `pat`s.
pub fn split_on_str(s: &str, pat: &str) -> (r: Vec<String>)
    requires
        pat@.len() > 0,
    ensures
        views(r@) == split_str(s@, pat@),
{
    let n = s.unicode_len();
    let m = pat.unicode_len();
    let mut r: Vec<String> = Vec::new();
    let mut p: usize = 0;
    let mut q: usize = 0;
    assert(s@.skip(0) =~= s@);
    assert(views(r@) + split_str(s@, pat@) =~= split_str(s@, pat@));
    while q < n
        invariant
            n == s@.len(),
            m == pat@.len(),
            m > 0,
            p <= q <= n,
            forall|j: int| p <= j < q ==> !matches_at(s@, pat@, j),
            views(r@) + split_str(s@.skip(p as int), pat@) == split_str(s@, pat@),
        decreases n - q,
    {
        if match_here(s, pat, q) {
            let piece = substring(s, p, q);
            proof {
                let t = s@.skip(p as int);
                assert forall|j: int| 0 <= j < q - p implies !matches_at(t, pat@, j) by {
                    assert(!matches_at(s@, pat@, p + j));
                    if j + m <= t.len() {
                        assert(t.subrange(j, j + m) =~= s@.subrange(p + j, p + j + m));
                    }
                }
                assert(t.subrange(q - p, q - p + m) =~= s@.subrange(q as int, q + m));
                lemma_first_sub(t, pat@, q - p);
                assert(t.take(q - p) =~= s@.subrange(p as int, q as int));
                assert(t.skip(q - p + m) =~= s@.skip(q + m));
                let before = views(r@);
                assert(views(r@.push(piece)) =~= before.push(piece@));
                assert(before.push(piece@) + split_str(s@.skip(q + m), pat@) =~= before + split_str(t, pat@));
            }
            r.push(piece);
            p = q + m;
            q = q + m;
        } else {
            q = q + 1;
        }
    }
    let last = substring(s, p, n);
    proof {
        let t = s@.skip(p as int);
        assert forall|j: int| 0 <= j < n - p implies !matches_at(t, pat@, j) by {
            assert(!matches_at(s@, pat@, p + j));
            if j + m <= t.len() {
                assert(t.subrange(j, j + m) =~= s@.subrange(p + j, p + j + m));
            }
        }
        lemma_first_sub(t, pat@, n - p);
        assert(t =~= s@.subrange(p as int, n as int));
        let before = views(r@);
        assert(views(r@.push(last)) =~= before.push(last@));
        assert(before.push(last@) =~= before + split_str(t, pat@));
    }
    r.push(last);
    r
}

/// An optional text holds the expected value.
pub open spec fn holds_text(o: Option<String>, v: Option<Seq<char>>) -> bool {
    match v {
        Some(t) => o matches Some(x) && x@ == t,
        None => o is None,
    }
}

/// A value with its time zone holds the expected pair.
pub open spec fn holds_zoned(o: Option<(String, Option<String>)>, v: Option<(Seq<char>, Option<Seq<char>>)>) -> bool {
    match v {
        Some((t, z)) => o matches Some((a, b)) && a@ == t && holds_text(b, z),
        None => o is None,
    }
}

/// An event as the ICS text states it: its title, the start and end
/// values with their time zones, and its recurrence rule, all as text.
pub struct RawEvent {
    pub title: String,
    pub start: (String, Option<String>),
    pub end: Option<(String, Option<String>)>,
    pub rrule: Option<String>,
}

/// The sections of unfolded ICS text that may hold an event: the text
/// before each `BEGIN:VEVENT` and after, each cut at its first
/// `END:VEVENT`.
pub open spec fn event_sections(u: Seq<char>) -> Seq<Seq<char>> {
    split_str(u, "BEGIN:VEVENT"@).map_values(|c: Seq<char>| split_str(c, "END:VEVENT"@)[0])
}

/// A section is an event when it has a summary and a start.
pub open spec fn is_event(sec: Seq<char>) -> bool {
    ics_value(sec, "SUMMARY"@) is Some && value_and_tzid(lines_of(sec), "DTSTART"@) is Some
}

/// `e` is what the event section states.
pub open spec fn event_of(e: RawEvent, sec: Seq<char>) -> bool {
    &&& Some(e.title@) == ics_value(sec, "SUMMARY"@)
    &&& holds_zoned(Some(e.start), value_and_tzid(lines_of(sec), "DTSTART"@))
    &&& holds_zoned(e.end, value_and_tzid(lines_of(sec), "DTEND"@))
    &&& holds_text(e.rrule, ics_value(sec, "RRULE"@))
}

proof fn lemma_split_str_nonempty(s: Seq<char>, pat: Seq<char>)
    ensures
        split_str(s, pat).len() >= 1,
    decreases s.len(),
{
    let i = first_sub(s, pat);
    if pat.len() > 0 && 0 <= i && i + pat.len() <= s.len() {
        lemma_split_str_nonempty(s.skip(i + pat.len()), pat);
    }
}

fn event_in(sec: &str) -> (r: Option<RawEvent>)
    ensures
        is_event(sec@) <==> r is Some,
        r matches Some(e) ==> event_of(e, sec@),
{
    let title = get_ics_value(sec, "SUMMARY");
    let start = get_ics_value_and_tzid(sec, "DTSTART");
    match (title, start) {
        (Some(title), Some(start)) => {
            let end = get_ics_value_and_tzid(sec, "DTEND");
            let rrule = get_ics_value(sec, "RRULE");
            Some(RawEvent { title, start, end, rrule })
        },
        _ => None,
    }
}

/// The events of ICS text, in order: each section with a summary and a
/// start, as text.
pub open spec fn raws_read(raw: Seq<char>, r: Seq<RawEvent>) -> bool {
    let evs = event_sections(unfold(lines_of(raw))).filter(|sec: Seq<char>| is_event(sec));
    &&& r.len() == evs.len()
    &&& forall|i: int| 0 <= i < r.len() ==> event_of(#[trigger] r[i], evs[i])
}

/// The events of ICS text, in order: each section with a summary and a
/// start, as text.
pub fn ics_events(raw: &str) -> (r: Vec<RawEvent>)
    ensures
        raws_read(raw@, r@),
{
    let unfolded = unfold_ics_lines(raw);
    proof {
        reveal_strlit("BEGIN:VEVENT");
        reveal_strlit("END:VEVENT");
    }
    let chunks = split_on_str(unfolded.as_str(), "BEGIN:VEVENT");
    let ghost secs = event_sections(unfolded@);
    let ghost pred = |sec: Seq<char>| is_event(sec);
    let mut r: Vec<RawEvent> = Vec::new();
    let mut i: usize = 0;
    while i < chunks.len()
        invariant
            views(chunks@) == split_str(unfolded@, "BEGIN:VEVENT"@),
            secs == event_sections(unfolded@),
            secs.len() == chunks@.len(),
            pred == (|sec: Seq<char>| is_event(sec)),
            "END:VEVENT"@.len() > 0,
            i <= chunks@.len(),
            r@.len() == secs.take(i as int).filter(pred).len(),
            forall|j: int| 0 <= j < r@.len() ==> event_of(#[trigger] r@[j], secs.take(i as int).filter(pred)[j]),
        decreases chunks@.len() - i,
    {
        let parts = split_on_str(chunks[i].as_str(), "END:VEVENT");
        proof {
            lemma_split_str_nonempty(chunks@[i as int]@, "END:VEVENT"@);
            assert(views(chunks@)[i as int] == chunks@[i as int]@);
            assert(secs[i as int] == split_str(chunks@[i as int]@, "END:VEVENT"@)[0]);
            assert(views(parts@)[0] == parts@[0]@);
            secs.take(i as int).lemma_filter_push(secs[i as int], pred);
            assert(secs.take(i + 1) =~= secs.take(i as int).push(secs[i as int]));
        }
        let sec = parts[0].as_str();
        match event_in(sec) {
            Some(e) => {
                r.push(e);
            },
            None => {},
        }
        i = i + 1;
    }
    assert(secs.take(chunks@.len() as int) =~= secs);
    r
}

} // verus!
