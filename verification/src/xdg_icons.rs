//! Icon names: how an application's icon name is normalized and matched
//! against the icons installed on the system, which probes the lookup
//! makes and in what order, and what a desktop file adds to the index of
//! icons by application name.

use crate::tempo_calendar::{has_prefix, lines_of, split_char, split_lines, split_on, starts_with};
use crate::text::{occurs_in, opt_view, push_char, push_str, str_contains, str_eq, substring, trim, trimmed, views};
use vstd::prelude::*;

verus! {

/// Pixels to draw: a file on disk or decoded RGBA data.
pub enum ImageSource {
    Path(String),
    Rgba { width: u32, height: u32, pixels: Vec<u8> },
}

/// A resolved icon: a raster image, an SVG file, or a glyph of the icon font.
pub enum XdgIcon {
    Image(ImageSource),
    Svg(String),
    NerdFont(String),
}

/// What `str::to_lowercase` makes of a text.
pub uninterp spec fn lowercase_of(s: Seq<char>) -> Seq<char>;

/// `str::to_lowercase`: the text in lower case by Unicode's mappings,
/// which are named here, not written out. Of those mappings this states
/// one fact: no character of the result is an ASCII upper-case letter
/// (those map to their lower-case forms, and no lower-case mapping
/// yields one).
#[verifier::external_body]
fn to_lowercase(s: &str) -> (r: String)
    ensures
        r@ == lowercase_of(s@),
        forall|i: int| 0 <= i < r@.len() ==> !('A' <= #[trigger] r@[i] && r@[i] <= 'Z'),
{
    s.to_lowercase()
}

/// An ASCII lower-case letter or digit.
pub open spec fn is_lower_or_digit(c: char) -> bool {
    ('a' <= c && c <= 'z') || ('0' <= c && c <= '9')
}

/// An ASCII letter or digit.
pub open spec fn is_ascii_alnum(c: char) -> bool {
    ('a' <= c && c <= 'z') || ('A' <= c && c <= 'Z') || ('0' <= c && c <= '9')
}

/// The ASCII letters and digits of a text, in order.
pub open spec fn alnum_only(s: Seq<char>) -> Seq<char>
    decreases s.len(),
{
    if s.len() == 0 {
        Seq::empty()
    } else if is_ascii_alnum(s.last()) {
        alnum_only(s.drop_last()).push(s.last())
    } else {
        alnum_only(s.drop_last())
    }
}

/// An icon name as it is compared: unchanged when it is all ASCII
/// lower-case letters and digits, else lower-cased with everything but
/// ASCII letters and digits dropped.
pub open spec fn normalized(name: Seq<char>) -> Seq<char> {
    if forall|i: int| 0 <= i < name.len() ==> is_lower_or_digit(#[trigger] name[i]) {
        name
    } else {
        alnum_only(lowercase_of(name))
    }
}

/// The normalized form of an icon name.
///
/// Every character of the result is an ASCII lower-case letter or digit,
/// so normalizing the result again leaves it as it is.
pub fn normalize_icon_name(name: &str) -> (r: String)
    ensures
        r@ == normalized(name@),
        forall|i: int| 0 <= i < r@.len() ==> is_lower_or_digit(#[trigger] r@[i]),
        normalized(r@) == r@,
{
    let n = name.unicode_len();
    let mut i: usize = 0;
    let mut plain = true;
    while i < n
        invariant
            n == name@.len(),
            i <= n,
            plain == forall|j: int| 0 <= j < i ==> is_lower_or_digit(#[trigger] name@[j]),
        decreases n - i,
    {
        let c = name.get_char(i);
        if !(('a' <= c && c <= 'z') || ('0' <= c && c <= '9')) {
            plain = false;
        }
        i = i + 1;
    }
    if plain {
        let mut r = String::new();
        crate::text::push_str(&mut r, name);
        assert(r@ =~= name@);
        return r;
    }
    let lower = to_lowercase(name);
    let m = lower.unicode_len();
    let mut r = String::new();
    let mut k: usize = 0;
    while k < m
        invariant
            m == lower@.len(),
            k <= m,
            r@ == alnum_only(lower@.take(k as int)),
            forall|j: int| 0 <= j < r@.len() ==> is_lower_or_digit(#[trigger] r@[j]),
            forall|j: int| 0 <= j < lower@.len() ==> !('A' <= #[trigger] lower@[j] && lower@[j] <= 'Z'),
        decreases m - k,
    {
        let c = lower.as_str().get_char(k);
        assert(lower@.take(k + 1).drop_last() =~= lower@.take(k as int));
        if ('a' <= c && c <= 'z') || ('A' <= c && c <= 'Z') || ('0' <= c && c <= '9') {
            push_char(&mut r, c);
        }
        k = k + 1;
    }
    assert(lower@.take(m as int) =~= lower@);
    r
}

/// A text without its `-` and `_`.
pub open spec fn without_separators(s: Seq<char>) -> Seq<char>
    decreases s.len(),
{
    if s.len() == 0 {
        Seq::empty()
    } else if s.last() == '-' || s.last() == '_' {
        without_separators(s.drop_last())
    } else {
        without_separators(s.drop_last()).push(s.last())
    }
}

/// An icon name without its `-` and `_`.
pub fn strip_icon_separators(name: &str) -> (r: String)
    ensures
        r@ == without_separators(name@),
{
    let n = name.unicode_len();
    let mut r = String::new();
    let mut k: usize = 0;
    while k < n
        invariant
            n == name@.len(),
            k <= n,
            r@ == without_separators(name@.take(k as int)),
        decreases n - k,
    {
        let c = name.get_char(k);
        assert(name@.take(k + 1).drop_last() =~= name@.take(k as int));
        if c != '-' && c != '_' {
            push_char(&mut r, c);
        }
        k = k + 1;
    }
    assert(name@.take(n as int) =~= name@);
    r
}

/// An installed icon: its name and the name's normalized form.
pub struct IconEntry {
    pub name: String,
    pub normalized: String,
}

/// The entry of an installed icon name.
pub fn icon_entry(name: &str) -> (r: IconEntry)
    ensures
        r.name@ == name@,
        r.normalized@ == normalized(name@),
{
    let mut n = String::new();
    crate::text::push_str(&mut n, name);
    assert(n@ =~= name@);
    IconEntry { name: n, normalized: normalize_icon_name(name) }
}

/// How many similar icons are tried at most.
pub const MAX_SIMILAR_ICON_CANDIDATES: usize = 5;

/// An installed icon is similar to a wanted one when its normalized name
/// differs from the wanted normalized name `n` but contains it, lies
/// within it, or contains `bare`, `n` without separators.
pub open spec fn similar(e: Seq<char>, n: Seq<char>, bare: Seq<char>) -> bool {
    e != n && (occurs_in(n, e) || occurs_in(e, n) || occurs_in(bare, e))
}

/// The names of the similar installed icons, in order.
pub open spec fn similar_names(es: Seq<IconEntry>, n: Seq<char>, bare: Seq<char>) -> Seq<Seq<char>>
    decreases es.len(),
{
    if es.len() == 0 {
        Seq::empty()
    } else if similar(es.last().normalized@, n, bare) {
        similar_names(es.drop_last(), n, bare).push(es.last().name@)
    } else {
        similar_names(es.drop_last(), n, bare)
    }
}

/// The first few similar icons of a wanted name, `None` when there are none.
pub open spec fn similar_icons(es: Seq<IconEntry>, icon_name: Seq<char>) -> Option<Seq<Seq<char>>> {
    let n = normalized(icon_name);
    let all = similar_names(es, n, without_separators(n));
    if all.len() == 0 {
        None
    } else if all.len() <= MAX_SIMILAR_ICON_CANDIDATES {
        Some(all)
    } else {
        Some(all.take(MAX_SIMILAR_ICON_CANDIDATES as int))
    }
}

proof fn lemma_similar_prefix(es: Seq<IconEntry>, n: Seq<char>, bare: Seq<char>, i: int)
    requires
        0 <= i <= es.len(),
    ensures
        similar_names(es.take(i), n, bare).len() <= similar_names(es, n, bare).len(),
        similar_names(es, n, bare).take(similar_names(es.take(i), n, bare).len() as int) == similar_names(
            es.take(i),
            n,
            bare,
        ),
    decreases es.len(),
{
    if i == es.len() {
        assert(es.take(i) =~= es);
        assert(similar_names(es, n, bare).take(similar_names(es, n, bare).len() as int) =~= similar_names(es, n, bare));
    } else {
        assert(es.drop_last().take(i) =~= es.take(i));
        lemma_similar_prefix(es.drop_last(), n, bare, i);
        let p = similar_names(es.drop_last(), n, bare);
        let k = similar_names(es.take(i), n, bare).len() as int;
        if similar(es.last().normalized@, n, bare) {
            assert(p.push(es.last().name@).take(k) =~= p.take(k));
        }
    }
}

/// The first few installed icons similar to a wanted name.
pub fn find_similar_icon(icon_name: &str, entries: &Vec<IconEntry>) -> (r: Option<Vec<String>>)
    ensures
        match similar_icons(entries@, icon_name@) {
            None => r is None,
            Some(v) => r matches Some(x) && views(x@) == v,
        },
{
    let n = normalize_icon_name(icon_name);
    let bare = strip_icon_separators(n.as_str());
    let ghost es = entries@;
    let mut found: Vec<String> = Vec::new();
    let mut i: usize = 0;
    while i < entries.len()
        invariant
            es == entries@,
            n@ == normalized(icon_name@),
            bare@ == without_separators(n@),
            i <= es.len(),
            views(found@) == similar_names(es.take(i as int), n@, bare@),
            found@.len() < MAX_SIMILAR_ICON_CANDIDATES,
        decreases es.len() - i,
    {
        let e = &entries[i];
        assert(es.take(i + 1).drop_last() =~= es.take(i as int));
        if !str_eq(e.normalized.as_str(), n.as_str()) && (str_contains(e.normalized.as_str(), n.as_str())
            || str_contains(n.as_str(), e.normalized.as_str()) || str_contains(e.normalized.as_str(), bare.as_str())) {
            found.push(e.name.clone());
            assert(views(found@) =~= similar_names(es.take(i + 1), n@, bare@));
            if found.len() >= MAX_SIMILAR_ICON_CANDIDATES {
                proof {
                    lemma_similar_prefix(es, n@, bare@, i + 1);
                }
                return Some(found);
            }
        }
        i = i + 1;
    }
    assert(es.take(es.len() as int) =~= es);
    if found.len() == 0 {
        None
    } else {
        Some(found)
    }
}

fn copy_entry(e: &IconEntry) -> (r: IconEntry)
    ensures
        r == *e,
{
    IconEntry { name: e.name.clone(), normalized: e.normalized.clone() }
}

/// The first installed icon whose normalized name is `n`.
pub open spec fn first_exact(es: Seq<IconEntry>, n: Seq<char>) -> Option<Seq<char>>
    decreases es.len(),
{
    if es.len() == 0 {
        None
    } else if es[0].normalized@ == n {
        Some(es[0].name@)
    } else {
        first_exact(es.drop_first(), n)
    }
}

/// The candidates whose normalized name has `ch` at position `idx`.
pub open spec fn narrow(cs: Seq<IconEntry>, idx: int, ch: char) -> Seq<IconEntry>
    decreases cs.len(),
{
    if cs.len() == 0 {
        Seq::empty()
    } else if idx < cs.last().normalized@.len() && cs.last().normalized@[idx] == ch {
        narrow(cs.drop_last(), idx, ch).push(cs.last())
    } else {
        narrow(cs.drop_last(), idx, ch)
    }
}

/// The installed icons whose normalized name agrees with `n` on its first
/// `k` characters, in order.
pub open spec fn agreeing(es: Seq<IconEntry>, n: Seq<char>, k: nat) -> Seq<IconEntry>
    decreases k,
{
    if k == 0 {
        es
    } else {
        narrow(agreeing(es, n, (k - 1) as nat), k - 1, n[k - 1])
    }
}

/// Narrowing character by character from position `k`: the single
/// candidate left, nothing once none is left, or the first of those that
/// agree on all of `n`.
pub open spec fn prefix_pick(es: Seq<IconEntry>, n: Seq<char>, k: nat) -> Option<Seq<char>>
    decreases n.len() - k,
{
    if k >= n.len() {
        let a = agreeing(es, n, k);
        if a.len() > 0 {
            Some(a[0].name@)
        } else {
            None
        }
    } else {
        let a = agreeing(es, n, k + 1);
        if a.len() == 1 {
            Some(a[0].name@)
        } else if a.len() == 0 {
            None
        } else {
            prefix_pick(es, n, k + 1)
        }
    }
}

/// The installed icon a name most plausibly abbreviates: one with the same
/// normalized name, else the one left by narrowing on its characters.
pub open spec fn prefix_match(es: Seq<IconEntry>, icon_name: Seq<char>) -> Option<Seq<char>> {
    if es.len() == 0 {
        None
    } else {
        let n = normalized(icon_name);
        match first_exact(es, n) {
            Some(x) => Some(x),
            None => prefix_pick(es, n, 0),
        }
    }
}

fn find_exact(entries: &Vec<IconEntry>, n: &str) -> (r: Option<usize>)
    ensures
        match first_exact(entries@, n@) {
            Some(x) => r matches Some(i) && i < entries@.len() && entries@[i as int].name@ == x,
            None => r is None,
        },
{
    let mut i: usize = 0;
    assert(entries@.skip(0) =~= entries@);
    while i < entries.len()
        invariant
            i <= entries@.len(),
            first_exact(entries@, n@) == first_exact(entries@.skip(i as int), n@),
            forall|j: int| 0 <= j < i ==> (#[trigger] entries@[j]).normalized@ != n@,
        decreases entries@.len() - i,
    {
        let ghost t = entries@.skip(i as int);
        assert(t.drop_first() =~= entries@.skip(i + 1));
        if str_eq(entries[i].normalized.as_str(), n) {
            return Some(i);
        }
        i = i + 1;
    }
    None
}

fn narrow_to(cands: &Vec<IconEntry>, idx: usize, ch: char) -> (r: Vec<IconEntry>)
    ensures
        r@ == narrow(cands@, idx as int, ch),
{
    let mut r: Vec<IconEntry> = Vec::new();
    let mut i: usize = 0;
    while i < cands.len()
        invariant
            i <= cands@.len(),
            r@ == narrow(cands@.take(i as int), idx as int, ch),
        decreases cands@.len() - i,
    {
        let c = &cands[i];
        assert(cands@.take(i + 1).drop_last() =~= cands@.take(i as int));
        if idx < c.normalized.unicode_len() && c.normalized.as_str().get_char(idx) == ch {
            r.push(copy_entry(c));
        }
        i = i + 1;
    }
    assert(cands@.take(cands@.len() as int) =~= cands@);
    r
}

/// The installed icon a name most plausibly abbreviates, if any.
pub fn prefix_match_icon(icon_name: &str, entries: &Vec<IconEntry>) -> (r: Option<String>)
    ensures
        match prefix_match(entries@, icon_name@) {
            Some(x) => r matches Some(s) && s@ == x,
            None => r is None,
        },
{
    if entries.len() == 0 {
        return None;
    }
    let n = normalize_icon_name(icon_name);
    if let Some(i) = find_exact(entries, n.as_str()) {
        return Some(entries[i].name.clone());
    }
    let m = n.unicode_len();
    let mut cands: Vec<IconEntry> = Vec::new();
    let mut i: usize = 0;
    while i < entries.len()
        invariant
            i <= entries@.len(),
            cands@ == entries@.take(i as int),
        decreases entries@.len() - i,
    {
        cands.push(copy_entry(&entries[i]));
        assert(cands@ =~= entries@.take(i + 1));
        i = i + 1;
    }
    assert(entries@.take(entries@.len() as int) =~= entries@);
    let mut k: usize = 0;
    while k < m
        invariant
            m == n@.len(),
            entries@.len() > 0,
            n@ == normalized(icon_name@),
            first_exact(entries@, n@) is None,
            k <= m,
            cands@ == agreeing(entries@, n@, k as nat),
            prefix_pick(entries@, n@, 0) == prefix_pick(entries@, n@, k as nat),
        decreases m - k,
    {
        let ch = n.as_str().get_char(k);
        cands = narrow_to(&cands, k, ch);
        assert(cands@ == agreeing(entries@, n@, (k + 1) as nat));
        if cands.len() == 1 {
            assert(prefix_pick(entries@, n@, k as nat) == Some(cands@[0].name@));
            return Some(cands[0].name.clone());
        }
        if cands.len() == 0 {
            return None;
        }
        k = k + 1;
    }
    if cands.len() > 0 {
        Some(cands[0].name.clone())
    } else {
        None
    }
}

/// Desktop files larger than this many bytes are skipped.
pub const MAX_DESKTOP_FILE_SIZE: u64 = 65536;

/// Whether a desktop file of `len` bytes is read.
pub fn desktop_file_fits(len: u64) -> (r: bool)
    ensures
        r == (len <= MAX_DESKTOP_FILE_SIZE),
{
    len <= MAX_DESKTOP_FILE_SIZE
}

/// The `Icon=` and `StartupWMClass=` values of a desktop file's lines,
/// trimmed; a later line replaces an earlier one.
pub open spec fn desktop_values(lines: Seq<Seq<char>>) -> (Option<Seq<char>>, Option<Seq<char>>)
    decreases lines.len(),
{
    if lines.len() == 0 {
        (None, None)
    } else {
        let (icon, class) = desktop_values(lines.drop_last());
        let l = lines.last();
        if has_prefix(l, "Icon="@) {
            (Some(trimmed(l.skip(5))), class)
        } else if has_prefix(l, "StartupWMClass="@) {
            (icon, Some(trimmed(l.skip(15))))
        } else {
            (icon, class)
        }
    }
}

/// Parts joined with dots.
pub open spec fn dotted(ps: Seq<Seq<char>>) -> Seq<char>
    decreases ps.len(),
{
    if ps.len() == 0 {
        Seq::empty()
    } else if ps.len() == 1 {
        ps[0]
    } else {
        dotted(ps.drop_last()) + seq!['.'] + ps.last()
    }
}

/// The names a desktop file's icon is found under: its window class,
/// normalized, then each dot-separated tail of its file stem, normalized,
/// longest first.
pub open spec fn desktop_keys(stem: Seq<char>, class: Option<Seq<char>>) -> Seq<Seq<char>> {
    let parts = split_char(stem, '.');
    (match class {
        Some(w) => seq![normalized(w)],
        None => Seq::empty(),
    }) + Seq::new(parts.len(), |s: int| normalized(dotted(parts.skip(s))))
}

/// The value kept for a key: the first one added.
pub open spec fn index_lookup(idx: Seq<(Seq<char>, Seq<char>)>, key: Seq<char>) -> Option<Seq<char>>
    decreases idx.len(),
{
    if idx.len() == 0 {
        None
    } else if idx[0].0 == key {
        Some(idx[0].1)
    } else {
        index_lookup(idx.drop_first(), key)
    }
}

/// Adding keys for a value: each key not yet present gets it.
pub open spec fn add_absent(idx: Seq<(Seq<char>, Seq<char>)>, keys: Seq<Seq<char>>, value: Seq<char>) -> Seq<(Seq<char>, Seq<char>)>
    decreases keys.len(),
{
    if keys.len() == 0 {
        idx
    } else {
        let before = add_absent(idx, keys.drop_last(), value);
        if index_lookup(before, keys.last()) is None {
            before.push((keys.last(), value))
        } else {
            before
        }
    }
}

/// The characters of an index's entries.
pub open spec fn index_view(v: Seq<(String, String)>) -> Seq<(Seq<char>, Seq<char>)> {
    v.map_values(|e: (String, String)| (e.0@, e.1@))
}

fn lookup_in(index: &Vec<(String, String)>, key: &str) -> (r: bool)
    ensures
        r == (index_lookup(index_view(index@), key@) is Some),
{
    let ghost iv = index_view(index@);
    let mut i: usize = 0;
    assert(iv.skip(0) =~= iv);
    while i < index.len()
        invariant
            iv == index_view(index@),
            i <= index@.len(),
            index_lookup(iv, key@) == index_lookup(iv.skip(i as int), key@),
        decreases index@.len() - i,
    {
        assert(iv.skip(i as int).drop_first() =~= iv.skip(i + 1));
        if str_eq(index[i].0.as_str(), key) {
            return true;
        }
        i = i + 1;
    }
    false
}

fn add_key(index: &mut Vec<(String, String)>, key: String, value: &str)
    ensures
        index_view(final(index)@) == (if index_lookup(index_view(old(index)@), key@) is None {
            index_view(old(index)@).push((key@, value@))
        } else {
            index_view(old(index)@)
        }),
{
    if !lookup_in(index, key.as_str()) {
        let mut v = String::new();
        push_str(&mut v, value);
        let ghost k = key@;
        index.push((key, v));
        assert(index_view(index@) =~= index_view(old(index)@).push((k, value@)));
    }
}

/// Adds what a desktop file tells: under each of its names not yet in the
/// index, the icon it names. A file without `Icon=` adds nothing.
pub fn add_desktop_file(index: &mut Vec<(String, String)>, stem: &str, contents: &str)
    ensures
        ({
            let (icon, class) = desktop_values(lines_of(contents@));
            index_view(final(index)@) == match icon {
                Some(i) => add_absent(index_view(old(index)@), desktop_keys(stem@, class), i),
                None => index_view(old(index)@),
            }
        }),
{
    let lines = split_lines(contents);
    let ghost ls = views(lines@);
    let mut icon: Option<String> = None;
    let mut class: Option<String> = None;
    let mut i: usize = 0;
    while i < lines.len()
        invariant
            ls == views(lines@),
            ls == lines_of(contents@),
            i <= lines@.len(),
            ({
                let (a, b) = desktop_values(ls.take(i as int));
                &&& match a {
                    Some(x) => icon matches Some(s) && s@ == x,
                    None => icon is None,
                }
                &&& match b {
                    Some(x) => class matches Some(s) && s@ == x,
                    None => class is None,
                }
            }),
        decreases lines@.len() - i,
    {
        let l = lines[i].as_str();
        proof {
            reveal_strlit("Icon=");
            reveal_strlit("StartupWMClass=");
        }
        assert(ls.take(i + 1).drop_last() =~= ls.take(i as int));
        assert(ls.take(i + 1).last() == l@);
        let n = l.unicode_len();
        if starts_with(l, "Icon=") {
            let rest = substring(l, 5, n);
            assert(rest@ =~= l@.skip(5));
            icon = Some(trim(rest.as_str()));
        } else if starts_with(l, "StartupWMClass=") {
            let rest = substring(l, 15, n);
            assert(rest@ =~= l@.skip(15));
            class = Some(trim(rest.as_str()));
        }
        i = i + 1;
    }
    assert(ls.take(lines@.len() as int) =~= ls);
    let icon = match icon {
        Some(x) => x,
        None => return,
    };
    let ghost keys = desktop_keys(stem@, opt_view(class));
    let ghost start = index_view(index@);
    let mut done: usize = 0;
    match &class {
        Some(w) => {
            add_key(index, normalize_icon_name(w.as_str()), icon.as_str());
            done = 1;
            assert(keys.take(1) =~= seq![normalized(w@)]);
            assert(keys.take(1).drop_last() =~= Seq::<Seq<char>>::empty());
            assert(add_absent(start, Seq::<Seq<char>>::empty(), icon@) == start);
            assert(keys.take(1).last() == normalized(w@));
        },
        None => {
            assert(keys.take(0) =~= Seq::<Seq<char>>::empty());
        },
    }
    assert(index_view(index@) == add_absent(start, keys.take(done as int), icon@));
    let parts = split_on(stem, '.');
    let ghost ps = views(parts@);
    let mut s: usize = 0;
    while s < parts.len()
        invariant
            ps == views(parts@),
            ps == split_char(stem@, '.'),
            keys == desktop_keys(stem@, opt_view(class)),
            done == (if class is Some { 1int } else { 0int }),
            keys.len() == done + ps.len(),
            s <= ps.len(),
            index_view(index@) == add_absent(start, keys.take(done + s), icon@),
        decreases ps.len() - s,
    {
        let mut key = String::new();
        let mut t: usize = s;
        while t < parts.len()
            invariant
                ps == views(parts@),
                s < ps.len(),
                s <= t <= ps.len(),
                key@ == dotted(ps.subrange(s as int, t as int)),
            decreases ps.len() - t,
        {
            assert(ps.subrange(s as int, t + 1).drop_last() =~= ps.subrange(s as int, t as int));
            if t > s {
                push_char(&mut key, '.');
            }
            push_str(&mut key, parts[t].as_str());
            proof {
                if t > s {
                    assert(key@ =~= dotted(ps.subrange(s as int, t as int)) + seq!['.'] + ps[t as int]);
                } else {
                    assert(key@ =~= ps[t as int]);
                }
            }
            t = t + 1;
        }
        assert(ps.subrange(s as int, ps.len() as int) =~= ps.skip(s as int));
        let normal = normalize_icon_name(key.as_str());
        assert(keys.take(done + s + 1).drop_last() =~= keys.take(done + s));
        assert(keys[done + s] == normalized(dotted(ps.skip(s as int))));
        add_key(index, normal, icon.as_str());
        s = s + 1;
    }
    assert(keys.take(keys.len() as int) =~= keys);
}

/// Where the lookup looks for an icon: the icon theme under a name, or a
/// file at an absolute path.
#[derive(Clone, Copy, PartialEq, Eq, Structural, Debug)]
pub enum ProbeKind {
    Theme,
    File,
}

/// The probe a desktop-index value leads to: a file when it is an absolute
/// path, else the theme under that name.
pub open spec fn desktop_probe(value: Seq<char>) -> (ProbeKind, Seq<char>) {
    if value.len() > 0 && value[0] == '/' {
        (ProbeKind::File, value)
    } else {
        (ProbeKind::Theme, value)
    }
}

/// The probes the lookup of an icon name makes, in order; the first that
/// finds a file decides. The name itself in the theme, then its similar
/// installed icons, then what the desktop index holds for its normalized
/// name, then the installed icon it abbreviates. An empty name has none.
pub open spec fn icon_probes_of(
    name: Seq<char>,
    entries: Seq<IconEntry>,
    index: Seq<(Seq<char>, Seq<char>)>,
) -> Seq<(ProbeKind, Seq<char>)> {
    if name.len() == 0 {
        Seq::empty()
    } else {
        seq![(ProbeKind::Theme, name)] + (match similar_icons(entries, name) {
            Some(v) => v.map_values(|c: Seq<char>| (ProbeKind::Theme, c)),
            None => Seq::empty(),
        }) + (match index_lookup(index, normalized(name)) {
            Some(v) => seq![desktop_probe(v)],
            None => Seq::empty(),
        }) + (match prefix_match(entries, name) {
            Some(p) => seq![(ProbeKind::Theme, p)],
            None => Seq::empty(),
        })
    }
}

/// The characters of a list of probes.
pub open spec fn probes_view(v: Seq<(ProbeKind, String)>) -> Seq<(ProbeKind, Seq<char>)> {
    v.map_values(|p: (ProbeKind, String)| (p.0, p.1@))
}

fn index_value(index: &Vec<(String, String)>, key: &str) -> (r: Option<String>)
    ensures
        match index_lookup(index_view(index@), key@) {
            Some(v) => r matches Some(s) && s@ == v,
            None => r is None,
        },
{
    let ghost iv = index_view(index@);
    let mut i: usize = 0;
    assert(iv.skip(0) =~= iv);
    while i < index.len()
        invariant
            iv == index_view(index@),
            i <= index@.len(),
            index_lookup(iv, key@) == index_lookup(iv.skip(i as int), key@),
        decreases index@.len() - i,
    {
        assert(iv.skip(i as int).drop_first() =~= iv.skip(i + 1));
        if str_eq(index[i].0.as_str(), key) {
            return Some(index[i].1.clone());
        }
        i = i + 1;
    }
    None
}

/// The probes of the lookup of an icon name.
pub fn icon_probes(name: &str, entries: &Vec<IconEntry>, index: &Vec<(String, String)>) -> (r: Vec<(ProbeKind, String)>)
    ensures
        probes_view(r@) == icon_probes_of(name@, entries@, index_view(index@)),
{
    let mut r: Vec<(ProbeKind, String)> = Vec::new();
    if name.unicode_len() == 0 {
        assert(probes_view(r@) =~= Seq::<(ProbeKind, Seq<char>)>::empty());
        return r;
    }
    let mut own = String::new();
    push_str(&mut own, name);
    r.push((ProbeKind::Theme, own));
    let ghost first = probes_view(r@);
    assert(first =~= seq![(ProbeKind::Theme, name@)]);
    let similar = find_similar_icon(name, entries);
    let ghost sim: Seq<(ProbeKind, Seq<char>)> = match similar_icons(entries@, name@) {
        Some(v) => v.map_values(|c: Seq<char>| (ProbeKind::Theme, c)),
        None => Seq::empty(),
    };
    match similar {
        Some(cands) => {
            let mut i: usize = 0;
            while i < cands.len()
                invariant
                    similar_icons(entries@, name@) matches Some(v) && views(cands@) == v,
                    sim == views(cands@).map_values(|c: Seq<char>| (ProbeKind::Theme, c)),
                    i <= cands@.len(),
                    probes_view(r@) == first + sim.take(i as int),
                decreases cands@.len() - i,
            {
                let c = cands[i].clone();
                let ghost before = r@;
                r.push((ProbeKind::Theme, c));
                assert(probes_view(r@) =~= probes_view(before).push((ProbeKind::Theme, cands@[i as int]@)));
                assert(sim[i as int] == (ProbeKind::Theme, views(cands@)[i as int]));
                assert(sim.take(i + 1) =~= sim.take(i as int).push(sim[i as int]));
                assert(probes_view(r@) =~= first + sim.take(i + 1));
                i = i + 1;
            }
            assert(sim.take(cands@.len() as int) =~= sim);
        },
        None => {
            assert(first + sim =~= first);
        },
    }
    let ghost after_sim = probes_view(r@);
    assert(after_sim == first + sim);
    let key = normalize_icon_name(name);
    match index_value(index, key.as_str()) {
        Some(v) => {
            let kind = if v.unicode_len() > 0 && v.as_str().get_char(0) == '/' {
                ProbeKind::File
            } else {
                ProbeKind::Theme
            };
            r.push((kind, v));
        },
        None => {},
    }
    let ghost after_desktop = probes_view(r@);
    match prefix_match_icon(name, entries) {
        Some(p) => {
            r.push((ProbeKind::Theme, p));
        },
        None => {},
    }
    assert(probes_view(r@) =~= icon_probes_of(name@, entries@, index_view(index@)));
    r
}

/// What `Path::extension` gives for a path.
pub uninterp spec fn extension_of(path: Seq<char>) -> Option<Seq<char>>;

/// `Path::extension`: the part of the file name after its last dot, by
/// std's rules on paths, which are named here, not written out.
#[verifier::external_body]
fn path_extension(path: &str) -> (r: Option<String>)
    ensures
        match extension_of(path@) {
            Some(e) => r matches Some(s) && s@ == e,
            None => r is None,
        },
{
    std::path::Path::new(path).extension().map(|e| e.to_string_lossy().into_owned())
}

/// The icon of a file found by the lookup: an SVG drawing when its
/// extension is `svg`, else a raster image.
pub fn icon_from_path(path: String) -> (r: XdgIcon)
    ensures
        extension_of(path@) == Some("svg"@) ==> (r matches XdgIcon::Svg(p) && p@ == path@),
        extension_of(path@) != Some("svg"@) ==> (r matches XdgIcon::Image(ImageSource::Path(p)) && p@ == path@),
{
    let is_svg = match path_extension(path.as_str()) {
        Some(e) => str_eq(e.as_str(), "svg"),
        None => false,
    };
    if is_svg {
        XdgIcon::Svg(path)
    } else {
        XdgIcon::Image(ImageSource::Path(path))
    }
}

/// A relative path joined onto a base as `PathBuf::join` does on Unix: a
/// `/` between them unless the base is empty or already ends in one.
pub open spec fn joined_path(base: Seq<char>, rel: Seq<char>) -> Seq<char> {
    if base.len() == 0 || base.last() == '/' {
        base + rel
    } else {
        base + seq!['/'] + rel
    }
}

pub fn join_path(base: &str, rel: &str) -> (r: String)
    ensures
        r@ == joined_path(base@, rel@),
{
    let mut r = String::new();
    push_str(&mut r, base);
    let n = base.unicode_len();
    if n > 0 && base.get_char(n - 1) != '/' {
        push_char(&mut r, '/');
    }
    push_str(&mut r, rel);
    r
}

/// The non-empty parts, in order.
pub open spec fn nonempty(ps: Seq<Seq<char>>) -> Seq<Seq<char>>
    decreases ps.len(),
{
    if ps.len() == 0 {
        Seq::empty()
    } else if ps.last().len() == 0 {
        nonempty(ps.drop_last())
    } else {
        nonempty(ps.drop_last()).push(ps.last())
    }
}

/// The directories of `XDG_DATA_DIRS`, or its default when it is unset.
pub open spec fn data_dirs_of(data_dirs: Option<Seq<char>>) -> Seq<Seq<char>> {
    nonempty(
        split_char(
            match data_dirs {
                Some(d) => d,
                None => "/usr/local/share:/usr/share"@,
            },
            ':',
        ),
    )
}

/// Each base with each of the relative parts joined on, in order.
pub open spec fn under_each(bases: Seq<Seq<char>>, rels: Seq<Seq<char>>) -> Seq<Seq<char>>
    decreases bases.len(),
{
    if bases.len() == 0 {
        Seq::empty()
    } else {
        under_each(bases.drop_last(), rels) + rels.map_values(|r: Seq<char>| joined_path(bases.last(), r))
    }
}

/// The directories of desktop files, before they are put in path order
/// and duplicates dropped: `applications` under `XDG_DATA_HOME`,
/// `.local/share/applications` under `HOME`, `applications` under each
/// data directory, then the two system ones.
pub open spec fn application_dirs_of(
    data_home: Option<Seq<char>>,
    home: Option<Seq<char>>,
    data_dirs: Option<Seq<char>>,
) -> Seq<Seq<char>> {
    (match data_home {
        Some(d) => seq![joined_path(d, "applications"@)],
        None => Seq::empty(),
    }) + (match home {
        Some(h) => seq![joined_path(h, ".local/share/applications"@)],
        None => Seq::empty(),
    }) + under_each(data_dirs_of(data_dirs), seq!["applications"@]) + seq![
        "/usr/local/share/applications"@,
        "/usr/share/applications"@,
    ]
}

/// The directories of icon files, before they are put in path order and
/// duplicates dropped: `icons` and `pixmaps` under `XDG_DATA_HOME`, under
/// `HOME`'s `.local/share` and under each data directory, then the two
/// system ones.
pub open spec fn icon_dirs_of(
    data_home: Option<Seq<char>>,
    home: Option<Seq<char>>,
    data_dirs: Option<Seq<char>>,
) -> Seq<Seq<char>> {
    (match data_home {
        Some(d) => seq![joined_path(d, "icons"@), joined_path(d, "pixmaps"@)],
        None => Seq::empty(),
    }) + (match home {
        Some(h) => seq![joined_path(h, ".local/share/icons"@), joined_path(h, ".local/share/pixmaps"@)],
        None => Seq::empty(),
    }) + under_each(data_dirs_of(data_dirs), seq!["icons"@, "pixmaps"@]) + seq![
        "/usr/share/icons"@,
        "/usr/share/pixmaps"@,
    ]
}

fn push_under_each(out: &mut Vec<String>, bases: &Vec<String>, rels: &Vec<&str>)
    ensures
        views(final(out)@) == views(old(out)@) + under_each(
            nonempty(views(bases@)),
            rels@.map_values(|r: &str| r@),
        ),
{
    let ghost rs = rels@.map_values(|r: &str| r@);
    let ghost start = views(out@);
    let mut i: usize = 0;
    while i < bases.len()
        invariant
            rs == rels@.map_values(|r: &str| r@),
            i <= bases@.len(),
            views(out@) == start + under_each(nonempty(views(bases@).take(i as int)), rs),
        decreases bases@.len() - i,
    {
        let ghost t = views(bases@).take(i + 1);
        assert(t.drop_last() =~= views(bases@).take(i as int));
        assert(t.last() == bases@[i as int]@);
        if bases[i].unicode_len() > 0 {
            let ghost mid = views(out@);
            let mut j: usize = 0;
            while j < rels.len()
                invariant
                    rs == rels@.map_values(|r: &str| r@),
                    i < bases@.len(),
                    j <= rels@.len(),
                    views(out@) == mid + rs.take(j as int).map_values(|r: Seq<char>| joined_path(bases@[i as int]@, r)),
                decreases rels@.len() - j,
            {
                let p = join_path(bases[i].as_str(), rels[j]);
                let ghost before = out@;
                let ghost f = |r: Seq<char>| joined_path(bases@[i as int]@, r);
                out.push(p);
                assert(views(out@) =~= views(before).push(p@));
                assert(rs[j as int] == rels@[j as int]@);
                assert(rs.take(j + 1) =~= rs.take(j as int).push(rs[j as int]));
                assert(rs.take(j + 1).map_values(f) =~= rs.take(j as int).map_values(f).push(f(rs[j as int])));
                assert(views(out@) =~= mid + rs.take(j + 1).map_values(f));
                j = j + 1;
            }
            assert(rs.take(rels@.len() as int) =~= rs);
            assert(nonempty(t) == nonempty(t.drop_last()).push(t.last()));
            let ghost ne = nonempty(t);
            assert(ne.drop_last() =~= nonempty(t.drop_last()));
            assert(ne.last() == bases@[i as int]@);
            assert(under_each(ne, rs) == under_each(ne.drop_last(), rs) + rs.map_values(
                |r: Seq<char>| joined_path(ne.last(), r),
            ));
            assert(views(out@) =~= start + under_each(nonempty(t), rs));
        } else {
            assert(nonempty(t) == nonempty(t.drop_last()));
        }
        i = i + 1;
    }
    assert(views(bases@).take(bases@.len() as int) =~= views(bases@));
}

fn data_dirs_list(dirs: &Option<String>) -> (r: Vec<String>)
    ensures
        views(r@) == split_char(
            match opt_view(*dirs) {
                Some(d) => d,
                None => "/usr/local/share:/usr/share"@,
            },
            ':',
        ),
{
    match dirs {
        Some(d) => split_on(d.as_str(), ':'),
        None => split_on("/usr/local/share:/usr/share", ':'),
    }
}

fn owned(s: &str) -> (r: String)
    ensures
        r@ == s@,
{
    let mut r = String::new();
    push_str(&mut r, s);
    r
}

/// The directories of desktop files, in the order they are listed.
pub fn application_dirs(data_home: &Option<String>, home: &Option<String>, xdg_data_dirs: &Option<String>) -> (r: Vec<String>)
    ensures
        views(r@) == application_dirs_of(opt_view(*data_home), opt_view(*home), opt_view(*xdg_data_dirs)),
{
    let mut r: Vec<String> = Vec::new();
    if let Some(d) = data_home {
        r.push(join_path(d.as_str(), "applications"));
    }
    if let Some(h) = home {
        r.push(join_path(h.as_str(), ".local/share/applications"));
    }
    let ghost head = views(r@);
    assert(head =~= (match opt_view(*data_home) {
        Some(d) => seq![joined_path(d, "applications"@)],
        None => Seq::empty(),
    }) + (match opt_view(*home) {
        Some(h) => seq![joined_path(h, ".local/share/applications"@)],
        None => Seq::empty(),
    }));
    let bases = data_dirs_list(xdg_data_dirs);
    let rels: Vec<&str> = vec!["applications"];
    push_under_each(&mut r, &bases, &rels);
    assert(rels@.map_values(|r: &str| r@) =~= seq!["applications"@]);
    assert(nonempty(views(bases@)) == data_dirs_of(opt_view(*xdg_data_dirs)));
    let ghost mid = views(r@);
    assert(mid == head + under_each(data_dirs_of(opt_view(*xdg_data_dirs)), seq!["applications"@]));
    r.push(owned("/usr/local/share/applications"));
    r.push(owned("/usr/share/applications"));
    assert(views(r@) =~= mid + seq!["/usr/local/share/applications"@, "/usr/share/applications"@]);
    r
}

/// The directories of icon files, in the order they are listed.
pub fn icon_dirs(data_home: &Option<String>, home: &Option<String>, xdg_data_dirs: &Option<String>) -> (r: Vec<String>)
    ensures
        views(r@) == icon_dirs_of(opt_view(*data_home), opt_view(*home), opt_view(*xdg_data_dirs)),
{
    let mut r: Vec<String> = Vec::new();
    if let Some(d) = data_home {
        r.push(join_path(d.as_str(), "icons"));
        r.push(join_path(d.as_str(), "pixmaps"));
    }
    if let Some(h) = home {
        r.push(join_path(h.as_str(), ".local/share/icons"));
        r.push(join_path(h.as_str(), ".local/share/pixmaps"));
    }
    let ghost head = views(r@);
    assert(head =~= (match opt_view(*data_home) {
        Some(d) => seq![joined_path(d, "icons"@), joined_path(d, "pixmaps"@)],
        None => Seq::empty(),
    }) + (match opt_view(*home) {
        Some(h) => seq![joined_path(h, ".local/share/icons"@), joined_path(h, ".local/share/pixmaps"@)],
        None => Seq::empty(),
    }));
    let bases = data_dirs_list(xdg_data_dirs);
    let rels: Vec<&str> = vec!["icons", "pixmaps"];
    push_under_each(&mut r, &bases, &rels);
    assert(rels@.map_values(|r: &str| r@) =~= seq!["icons"@, "pixmaps"@]);
    assert(nonempty(views(bases@)) == data_dirs_of(opt_view(*xdg_data_dirs)));
    let ghost mid = views(r@);
    assert(mid == head + under_each(data_dirs_of(opt_view(*xdg_data_dirs)), seq!["icons"@, "pixmaps"@]));
    r.push(owned("/usr/share/icons"));
    r.push(owned("/usr/share/pixmaps"));
    assert(views(r@) =~= mid + seq!["/usr/share/icons"@, "/usr/share/pixmaps"@]);
    r
}

} // verus!
