//! Human labels derived from Android package ids, used when no curated or
//! AI-supplied friendly name is known.
use vstd::prelude::*;
use vstd::utf8::encode_utf8;
use crate::text::{
    ascii_lower, ascii_lower_char, char_is_lowercase, char_is_uppercase, char_to_uppercase,
    chars_eq_str, chars_of, is_lowercase, is_uppercase, lemma_utf8_len_append,
    lemma_utf8_len_is_encoding_len, lower_chars, push_char, to_uppercase, utf8_len, utf8_width,
};

verus! {

// ---------------------------------------------------------------------------
// Title-casing of one id segment
// ---------------------------------------------------------------------------

/// Word separators inside one segment.
pub open spec fn is_separator(c: char) -> bool {
    c == '_' || c == '-'
}

/// The case of a character as word splitting sees it: (uppercase, lowercase).
pub open spec fn char_case(c: char) -> (bool, bool) {
    (char_is_uppercase(c), char_is_lowercase(c))
}

/// Left-to-right scan of a segment whose characters have the given cases:
/// the finished words, the word being built, and whether the last character
/// taken into it was lowercase. A separator ends the current word; an
/// uppercase character right after a lowercase one starts a new word
/// (camelCase).
pub open spec fn word_scan(s: Seq<char>, cases: Seq<(bool, bool)>) -> (
    Seq<Seq<char>>,
    Seq<char>,
    bool,
)
    decreases s.len(),
{
    if s.len() == 0 {
        (seq![], seq![], false)
    } else {
        let (words, cur, prev_lower) = word_scan(s.drop_last(), cases);
        let ch = s.last();
        let (upper, lower) = cases[s.len() - 1];
        if is_separator(ch) {
            (if cur.len() > 0 { words.push(cur) } else { words }, seq![], false)
        } else if upper && prev_lower && cur.len() > 0 {
            (words.push(cur), seq![ch], lower)
        } else {
            (words, cur.push(ch), lower)
        }
    }
}

/// The words of a segment whose characters have the given cases, split on
/// `_`, `-` and camelCase boundaries.
pub open spec fn words_of(s: Seq<char>, cases: Seq<(bool, bool)>) -> Seq<Seq<char>> {
    let (words, cur, _) = word_scan(s, cases);
    if cur.len() > 0 {
        words.push(cur)
    } else {
        words
    }
}

/// The words of a segment, by the Unicode case of its characters.
pub open spec fn segment_words(s: Seq<char>) -> Seq<Seq<char>> {
    words_of(s, s.map_values(|c: char| char_case(c)))
}

/// A word with its first character replaced by `first`.
pub open spec fn title_with(w: Seq<char>, first: Seq<char>) -> Seq<char> {
    if w.len() == 0 {
        seq![]
    } else {
        first + w.drop_first()
    }
}

/// A word with its first character replaced by its Unicode uppercase mapping.
pub open spec fn title_word(w: Seq<char>) -> Seq<char> {
    if w.len() == 0 {
        seq![]
    } else {
        title_with(w, char_to_uppercase(w[0]))
    }
}

/// Words joined by single spaces.
pub open spec fn join_words(ws: Seq<Seq<char>>) -> Seq<char>
    decreases ws.len(),
{
    if ws.len() == 0 {
        seq![]
    } else if ws.len() == 1 {
        ws[0]
    } else {
        join_words(ws.drop_last()) + seq![' '] + ws.last()
    }
}

/// Title case of one segment: its words, each title-cased, joined by spaces;
/// a segment with no word at all (only separators, or empty) is kept as is.
pub open spec fn title_case(s: Seq<char>) -> Seq<char> {
    let words = segment_words(s);
    if words.len() == 0 {
        s
    } else {
        join_words(words.map_values(|w: Seq<char>| title_word(w)))
    }
}

// ---------------------------------------------------------------------------
// Segment tables
// ---------------------------------------------------------------------------

/// Segments that name plumbing rather than an app (compared lowercased).
pub open spec fn is_generic_segment(lower: Seq<char>) -> bool {
    ||| lower == "android"@
    ||| lower == "app"@
    ||| lower == "apps"@
    ||| lower == "application"@
    ||| lower == "client"@
    ||| lower == "core"@
    ||| lower == "main"@
    ||| lower == "mobile"@
    ||| lower == "module"@
    ||| lower == "package"@
    ||| lower == "provider"@
    ||| lower == "release"@
    ||| lower == "service"@
    ||| lower == "services"@
    ||| lower == "ui"@
}

/// Segments naming the variant of an app, with the suffix they become.
pub open spec fn variant_label(lower: Seq<char>) -> Option<Seq<char>> {
    if lower == "tv"@ {
        Some("TV"@)
    } else if lower == "wear"@ {
        Some("Wear"@)
    } else if lower == "auto"@ {
        Some("Auto"@)
    } else if lower == "tablet"@ {
        Some("Tablet"@)
    } else if lower == "phone"@ {
        Some("Phone"@)
    } else if lower == "go"@ {
        Some("Go"@)
    } else if lower == "lite"@ {
        Some("Lite"@)
    } else {
        None
    }
}

/// Opaque internal segment names with a well-known meaning.
pub open spec fn known_expansion(lower: Seq<char>) -> Option<Seq<char>> {
    if lower == "gms"@ {
        Some("Google Play services"@)
    } else if lower == "gsf"@ {
        Some("Google Services Framework"@)
    } else if lower == "vending"@ {
        Some("Google Play Store"@)
    } else if lower == "systemui"@ {
        Some("System UI"@)
    } else if lower == "packageinstaller"@ {
        Some("Package Installer"@)
    } else if lower == "setupwizard"@ {
        Some("Setup Wizard"@)
    } else if lower == "inputmethod"@ {
        Some("Input Method"@)
    } else if lower == "webview"@ {
        Some("WebView"@)
    } else if lower == "youtube"@ {
        Some("YouTube"@)
    } else if lower == "gmail"@ {
        Some("Gmail"@)
    } else if lower == "tts"@ {
        Some("Text-to-Speech"@)
    } else if lower == "ims"@ {
        Some("IMS"@)
    } else if lower == "nfc"@ {
        Some("NFC"@)
    } else {
        None
    }
}

/// A lowercased segment glued to a leading `tv` (`tvmusic`): the rest, when
/// that rest takes at least three bytes in UTF-8 (its `str::len`).
pub open spec fn glued_tv_rest(lower: Seq<char>) -> Option<Seq<char>> {
    if lower.len() >= 2 && lower[0] == 't' && lower[1] == 'v' && encode_utf8(lower.skip(2)).len() >= 3 {
        Some(lower.skip(2))
    } else {
        None
    }
}

/// A known expansion of the word, else its title case.
pub open spec fn pretty_word_spec(word: Seq<char>) -> Seq<char> {
    match known_expansion(ascii_lower(word)) {
        Some(v) => v,
        None => title_case(word),
    }
}

// ---------------------------------------------------------------------------
// Package id labels
// ---------------------------------------------------------------------------

/// `s` cut at every `sep`; there is always at least one part.
pub open spec fn split_on(s: Seq<char>, sep: char) -> Seq<Seq<char>>
    decreases s.len(),
{
    if s.len() == 0 {
        seq![seq![]]
    } else {
        let parts = split_on(s.drop_last(), sep);
        if s.last() == sep {
            parts.push(seq![])
        } else {
            parts.update(parts.len() - 1, parts.last().push(s.last()))
        }
    }
}

/// Scan of the segments after the top-level domain: the meaningful words
/// (each marked when it came from a glued `tv` prefix) and the last variant
/// seen. Generic segments are dropped; variant segments only set the variant.
pub open spec fn segment_scan(rest: Seq<Seq<char>>) -> (Seq<(Seq<char>, bool)>, Option<Seq<char>>)
    decreases rest.len(),
{
    if rest.len() == 0 {
        (seq![], None)
    } else {
        let (words, variant) = segment_scan(rest.drop_last());
        let seg = rest.last();
        let lower = ascii_lower(seg);
        if is_generic_segment(lower) {
            (words, variant)
        } else if variant_label(lower) is Some {
            (words, variant_label(lower))
        } else if glued_tv_rest(lower) is Some {
            (words.push((glued_tv_rest(lower)->0, true)), Some("TV"@))
        } else {
            (words.push((seg, false)), variant)
        }
    }
}

/// The label of a package id: the last meaningful word (preceded by the word
/// before it when it came from a glued `tv` prefix), then the variant in
/// parentheses. When nothing meaningful is left, the last segment title-cased;
/// an id without any `.`, title-cased whole.
pub open spec fn pkg_label(id: Seq<char>) -> Seq<char> {
    let segs = split_on(id, '.');
    let rest = segs.drop_first();
    if rest.len() == 0 {
        title_case(segs[0])
    } else {
        let (words, variant) = segment_scan(rest);
        if words.len() == 0 {
            title_case(rest.last())
        } else {
            let last = words.last();
            let head = if last.1 && words.len() >= 2 {
                pretty_word_spec(words[words.len() - 2].0) + seq![' ']
            } else {
                seq![]
            };
            let tail = match variant {
                Some(v) => " ("@ + v + ")"@,
                None => seq![],
            };
            head + pretty_word_spec(last.0) + tail
        }
    }
}


/// The character views of a vector of character vectors.
pub open spec fn views(ws: Seq<Vec<char>>) -> Seq<Seq<char>> {
    ws.map_values(|w: Vec<char>| w@)
}

/// The view of the words gathered by the segment scan.
pub open spec fn word_views(ws: Seq<(Vec<char>, bool)>) -> Seq<(Seq<char>, bool)> {
    ws.map_values(|p: (Vec<char>, bool)| (p.0@, p.1))
}

/// The view of an optional string.
pub open spec fn opt_view(o: Option<&str>) -> Option<Seq<char>> {
    match o {
        Some(v) => Some(v@),
        None => None,
    }
}

/// A fresh copy of the characters.
fn copy_chars(v: &Vec<char>) -> (r: Vec<char>)
    ensures
        r@ == v@,
{
    let mut r: Vec<char> = Vec::new();
    let mut i: usize = 0;
    while i < v.len()
        invariant
            i <= v.len(),
            r@ == v@.take(i as int),
        decreases v.len() - i,
    {
        r.push(v[i]);
        assert(v@.take(i + 1) =~= v@.take(i as int).push(v@[i as int]));
        i += 1;
    }
    assert(v@.take(v.len() as int) =~= v@);
    r
}

/// A `String` holding exactly the given characters.
fn string_of(v: &Vec<char>) -> (r: String)
    ensures
        r@ == v@,
{
    let mut r = String::new();
    let mut i: usize = 0;
    while i < v.len()
        invariant
            i <= v.len(),
            r@ == v@.take(i as int),
        decreases v.len() - i,
    {
        push_char(&mut r, v[i]);
        assert(v@.take(i + 1) =~= v@.take(i as int).push(v@[i as int]));
        i += 1;
    }
    assert(v@.take(v.len() as int) =~= v@);
    r
}

/// Appends the characters `v[from..]` to `out`.
fn push_tail(out: &mut String, v: &Vec<char>, from: usize)
    requires
        from <= v.len(),
    ensures
        final(out)@ == old(out)@ + v@.skip(from as int),
{
    let ghost start = out@;
    let mut j: usize = from;
    while j < v.len()
        invariant
            from <= j <= v.len(),
            out@ == start + v@.subrange(from as int, j as int),
        decreases v.len() - j,
    {
        push_char(out, v[j]);
        assert(v@.subrange(from as int, j + 1) =~= v@.subrange(from as int, j as int).push(
            v@[j as int],
        ));
        assert(start + v@.subrange(from as int, j + 1) =~= (start + v@.subrange(
            from as int,
            j as int,
        )).push(v@[j as int]));
        j += 1;
    }
    assert(v@.subrange(from as int, v.len() as int) =~= v@.skip(from as int));
}

/// Splits a segment into words at `_`, `-` and camelCase boundaries, given
/// whether each character is uppercase and whether it is lowercase.
pub fn split_words(segment: &Vec<char>, cases: &Vec<(bool, bool)>) -> (words: Vec<Vec<char>>)
    requires
        cases.len() == segment.len(),
    ensures
        views(words@) == words_of(segment@, cases@),
{
    let mut words: Vec<Vec<char>> = Vec::new();
    let mut cur: Vec<char> = Vec::new();
    let mut prev_lower = false;
    let mut i: usize = 0;
    while i < segment.len()
        invariant
            i <= segment.len(),
            cases.len() == segment.len(),
            word_scan(segment@.take(i as int), cases@) == (views(words@), cur@, prev_lower),
        decreases segment.len() - i,
    {
        let ch = segment[i];
        let (upper, lower) = cases[i];
        assert(segment@.take(i + 1).drop_last() =~= segment@.take(i as int));
        assert(segment@.take(i + 1).last() == ch);
        if ch == '_' || ch == '-' {
            if cur.len() > 0 {
                let ghost w0 = views(words@);
                let ghost c0 = cur@;
                words.push(cur);
                assert(views(words@) =~= w0.push(c0));
                cur = Vec::new();
            }
            prev_lower = false;
        } else {
            if upper && prev_lower && cur.len() > 0 {
                let ghost w0 = views(words@);
                let ghost c0 = cur@;
                words.push(cur);
                assert(views(words@) =~= w0.push(c0));
                cur = Vec::new();
            }
            cur.push(ch);
            prev_lower = lower;
        }
        i += 1;
    }
    assert(segment@.take(segment.len() as int) =~= segment@);
    if cur.len() > 0 {
        let ghost w0 = views(words@);
        let ghost c0 = cur@;
        words.push(cur);
        assert(views(words@) =~= w0.push(c0));
    }
    words
}

/// The words, each with its first character replaced by the matching entry
/// of `firsts`, joined by single spaces.
pub fn join_titled(words: &Vec<Vec<char>>, firsts: &Vec<String>) -> (r: String)
    requires
        firsts.len() == words.len(),
    ensures
        r@ == join_words(
            Seq::new(words.len() as nat, |i: int| title_with(words@[i]@, firsts@[i]@)),
        ),
{
    let ghost titled = Seq::new(words.len() as nat, |i: int| title_with(words@[i]@, firsts@[i]@));
    let mut out = String::new();
    let mut k: usize = 0;
    while k < words.len()
        invariant
            k <= words.len(),
            firsts.len() == words.len(),
            titled == Seq::new(words.len() as nat, |i: int| title_with(words@[i]@, firsts@[i]@)),
            out@ == join_words(titled.take(k as int)),
        decreases words.len() - k,
    {
        let ghost before = out@;
        if k > 0 {
            push_char(&mut out, ' ');
        }
        let w = &words[k];
        if w.len() > 0 {
            out.append(firsts[k].as_str());
            push_tail(&mut out, w, 1);
            assert(title_with(w@, firsts@[k as int]@) =~= firsts@[k as int]@ + w@.skip(1));
        } else {
            assert(title_with(w@, firsts@[k as int]@) =~= Seq::<char>::empty());
        }
        assert(titled[k as int] == title_with(w@, firsts@[k as int]@));
        assert(titled.take(k + 1).drop_last() =~= titled.take(k as int));
        if k == 0 {
            assert(before =~= Seq::<char>::empty());
            assert(out@ =~= titled[k as int]);
        } else {
            assert(out@ =~= before + seq![' '] + titled[k as int]);
        }
        k += 1;
    }
    assert(titled.take(words.len() as int) =~= titled);
    out
}

/// Title-case one id segment, splitting on `_`, `-` and camelCase boundaries.
fn capitalize_words(segment: &Vec<char>) -> (res: String)
    ensures
        res@ == title_case(segment@),
{
    let mut cases: Vec<(bool, bool)> = Vec::new();
    let mut i: usize = 0;
    while i < segment.len()
        invariant
            i <= segment.len(),
            cases@ == segment@.take(i as int).map_values(|c: char| char_case(c)),
        decreases segment.len() - i,
    {
        let c = segment[i];
        cases.push((is_uppercase(c), is_lowercase(c)));
        assert(segment@.take(i + 1).map_values(|c: char| char_case(c)) =~= segment@.take(
            i as int,
        ).map_values(|c: char| char_case(c)).push(char_case(c)));
        i += 1;
    }
    assert(segment@.take(segment.len() as int) =~= segment@);
    let words = split_words(segment, &cases);
    if words.len() == 0 {
        return string_of(segment);
    }
    let mut firsts: Vec<String> = Vec::new();
    let mut k: usize = 0;
    while k < words.len()
        invariant
            k <= words.len(),
            firsts.len() == k,
            forall|j: int|
                0 <= j < k ==> title_with(words@[j]@, (#[trigger] firsts@[j])@) == title_word(
                    words@[j]@,
                ),
        decreases words.len() - k,
    {
        let w = &words[k];
        if w.len() > 0 {
            firsts.push(to_uppercase(w[0]));
        } else {
            firsts.push(String::new());
        }
        k += 1;
    }
    let ghost ws = views(words@);
    assert(Seq::new(words.len() as nat, |i: int| title_with(words@[i]@, firsts@[i]@)) =~= ws.map_values(
        |w: Seq<char>| title_word(w),
    ));
    join_titled(&words, &firsts)
}

/// Whether the lowercased segment names plumbing rather than an app.
fn is_generic(lower: &Vec<char>) -> (r: bool)
    ensures
        r == is_generic_segment(lower@),
{
    chars_eq_str(lower, "android") || chars_eq_str(lower, "app") || chars_eq_str(lower, "apps")
        || chars_eq_str(lower, "application") || chars_eq_str(lower, "client") || chars_eq_str(
        lower,
        "core",
    ) || chars_eq_str(lower, "main") || chars_eq_str(lower, "mobile") || chars_eq_str(
        lower,
        "module",
    ) || chars_eq_str(lower, "package") || chars_eq_str(lower, "provider") || chars_eq_str(
        lower,
        "release",
    ) || chars_eq_str(lower, "service") || chars_eq_str(lower, "services") || chars_eq_str(
        lower,
        "ui",
    )
}

/// The variant suffix named by the lowercased segment, if any.
fn variant_of(lower: &Vec<char>) -> (r: Option<&'static str>)
    ensures
        opt_view(r) == variant_label(lower@),
{
    if chars_eq_str(lower, "tv") {
        Some("TV")
    } else if chars_eq_str(lower, "wear") {
        Some("Wear")
    } else if chars_eq_str(lower, "auto") {
        Some("Auto")
    } else if chars_eq_str(lower, "tablet") {
        Some("Tablet")
    } else if chars_eq_str(lower, "phone") {
        Some("Phone")
    } else if chars_eq_str(lower, "go") {
        Some("Go")
    } else if chars_eq_str(lower, "lite") {
        Some("Lite")
    } else {
        None
    }
}

/// The well-known meaning of the lowercased segment, if any.
fn known_of(lower: &Vec<char>) -> (r: Option<&'static str>)
    ensures
        opt_view(r) == known_expansion(lower@),
{
    if chars_eq_str(lower, "gms") {
        Some("Google Play services")
    } else if chars_eq_str(lower, "gsf") {
        Some("Google Services Framework")
    } else if chars_eq_str(lower, "vending") {
        Some("Google Play Store")
    } else if chars_eq_str(lower, "systemui") {
        Some("System UI")
    } else if chars_eq_str(lower, "packageinstaller") {
        Some("Package Installer")
    } else if chars_eq_str(lower, "setupwizard") {
        Some("Setup Wizard")
    } else if chars_eq_str(lower, "inputmethod") {
        Some("Input Method")
    } else if chars_eq_str(lower, "webview") {
        Some("WebView")
    } else if chars_eq_str(lower, "youtube") {
        Some("YouTube")
    } else if chars_eq_str(lower, "gmail") {
        Some("Gmail")
    } else if chars_eq_str(lower, "tts") {
        Some("Text-to-Speech")
    } else if chars_eq_str(lower, "ims") {
        Some("IMS")
    } else if chars_eq_str(lower, "nfc") {
        Some("NFC")
    } else {
        None
    }
}

/// Whether the characters take at least three bytes in UTF-8.
fn utf8_len_at_least_3(s: &Vec<char>) -> (r: bool)
    ensures
        r == (encode_utf8(s@).len() >= 3),
{
    let mut total: usize = 0;
    let mut i: usize = 0;
    while i < s.len() && total < 3
        invariant
            i <= s.len(),
            total == utf8_len(s@.take(i as int)),
        decreases s.len() - i,
    {
        let u: u32 = s[i] as u32;
        let w: usize = if u <= 0x7F {
            1
        } else if u <= 0x7FF {
            2
        } else if u <= 0xFFFF {
            3
        } else {
            4
        };
        assert(s@.take(i + 1).drop_last() =~= s@.take(i as int));
        assert(w == utf8_width(s@[i as int]));
        total = total + w;
        i += 1;
    }
    proof {
        lemma_utf8_len_is_encoding_len(s@);
        lemma_utf8_len_append(s@.take(i as int), s@.skip(i as int));
        assert(s@.take(i as int) + s@.skip(i as int) =~= s@);
        if i == s.len() {
            assert(s@.take(i as int) =~= s@);
        }
    }
    total >= 3
}

/// Split a glued variant prefix, e.g. `tvmusic` -> `("TV", "music")`.
///
/// Only `tv` is handled: Android TV packages glue it constantly, and no common
/// English word starts with it.
fn split_variant_prefix(seg: &Vec<char>) -> (r: Option<(&'static str, Vec<char>)>)
    ensures
        match r {
            Some((v, rest)) => v@ == "TV"@ && glued_tv_rest(seg@) == Some(rest@),
            None => glued_tv_rest(seg@) is None,
        },
{
    if seg.len() >= 2 && seg[0] == 't' && seg[1] == 'v' {
        let mut rest: Vec<char> = Vec::new();
        let mut j: usize = 2;
        while j < seg.len()
            invariant
                2 <= j <= seg.len(),
                rest@ == seg@.subrange(2, j as int),
            decreases seg.len() - j,
        {
            rest.push(seg[j]);
            assert(seg@.subrange(2, j + 1) =~= seg@.subrange(2, j as int).push(seg@[j as int]));
            j += 1;
        }
        assert(rest@ =~= seg@.skip(2));
        if utf8_len_at_least_3(&rest) {
            return Some(("TV", rest));
        }
    }
    None
}

/// Expand a known internal segment, else title-case it.
fn pretty_word(word: &Vec<char>) -> (res: String)
    ensures
        res@ == pretty_word_spec(word@),
{
    let lower = lower_chars(word);
    match known_of(&lower) {
        Some(v) => String::from_str(v),
        None => capitalize_words(word),
    }
}

/// `s` cut at every `.`.
fn split_dots(s: &Vec<char>) -> (parts: Vec<Vec<char>>)
    ensures
        views(parts@) == split_on(s@, '.'),
{
    let mut parts: Vec<Vec<char>> = Vec::new();
    let mut cur: Vec<char> = Vec::new();
    let mut i: usize = 0;
    while i < s.len()
        invariant
            i <= s.len(),
            views(parts@).push(cur@) == split_on(s@.take(i as int), '.'),
        decreases s.len() - i,
    {
        let c = s[i];
        let ghost p0 = views(parts@);
        let ghost c0 = cur@;
        assert(s@.take(i + 1).drop_last() =~= s@.take(i as int));
        assert(s@.take(i + 1).last() == c);
        if c == '.' {
            parts.push(cur);
            cur = Vec::new();
            assert(views(parts@) =~= p0.push(c0));
            assert(views(parts@).push(cur@) =~= p0.push(c0).push(seq![]));
        } else {
            cur.push(c);
            assert(views(parts@).push(cur@) =~= p0.push(c0).update(p0.len() as int, c0.push(c)));
        }
        i += 1;
    }
    assert(s@.take(s.len() as int) =~= s@);
    let ghost p0 = views(parts@);
    let ghost c0 = cur@;
    parts.push(cur);
    assert(views(parts@) =~= p0.push(c0));
    parts
}

/// Best-effort human label derived from a package id, used when no AI or
/// curated friendly name is available.
///
/// Takes the last *meaningful* segment rather than simply the last one, so
/// `com.google.android.youtube.tv` reads as `YouTube (TV)` instead of `Tv`.
pub fn prettify_pkg_id(id: &str) -> (res: String)
    ensures
        res@ == pkg_label(id@),
{
    let chars = chars_of(id);
    let segs = split_dots(&chars);
    let ghost sv = split_on(id@, '.');
    proof {
        lemma_split_on_nonempty(id@, '.');
    }
    if segs.len() == 1 {
        assert(sv.drop_first().len() == 0);
        return capitalize_words(&segs[0]);
    }
    let ghost rest = sv.drop_first();
    let mut words: Vec<(Vec<char>, bool)> = Vec::new();
    let mut variant: Option<&'static str> = None;
    let mut i: usize = 1;
    while i < segs.len()
        invariant
            1 <= i <= segs.len(),
            views(segs@) == sv,
            rest == sv.drop_first(),
            (word_views(words@), opt_view(variant)) == segment_scan(rest.take(i - 1)),
        decreases segs.len() - i,
    {
        let seg = &segs[i];
        assert(seg@ == sv[i as int]);
        assert(rest.take(i as int).drop_last() =~= rest.take(i - 1));
        assert(rest.take(i as int).last() == seg@);
        let lower = lower_chars(seg);
        let ghost w0 = word_views(words@);
        if is_generic(&lower) {
        } else {
            match variant_of(&lower) {
                Some(v) => {
                    variant = Some(v);
                },
                None => {
                    match split_variant_prefix(&lower) {
                        Some((v, tail)) => {
                            variant = Some(v);
                            let ghost t = tail@;
                            words.push((tail, true));
                            assert(word_views(words@) =~= w0.push((t, true)));
                        },
                        None => {
                            let copy = copy_chars(seg);
                            words.push((copy, false));
                            assert(word_views(words@) =~= w0.push((seg@, false)));
                        },
                    }
                },
            }
        }
        i += 1;
    }
    assert(rest.take(segs.len() - 1) =~= rest);
    if words.len() == 0 {
        let last = segs.len() - 1;
        assert(rest.last() == sv[last as int]);
        return capitalize_words(&segs[last]);
    }
    let n = words.len();
    let ghost wv = word_views(words@);
    assert(wv.last() == (words[n - 1].0@, words[n - 1].1));
    let mut label = String::new();
    if words[n - 1].1 && n >= 2 {
        assert(wv[n - 2] == (words[n - 2].0@, words[n - 2].1));
        label = pretty_word(&words[n - 2].0);
        push_char(&mut label, ' ');
    }
    let last_word = pretty_word(&words[n - 1].0);
    label.append(last_word.as_str());
    match variant {
        Some(v) => {
            label.append(" (");
            label.append(v);
            label.append(")");
        },
        None => {},
    }
    label
}

/// Splitting always yields at least one part.
pub proof fn lemma_split_on_nonempty(s: Seq<char>, sep: char)
    ensures
        split_on(s, sep).len() >= 1,
    decreases s.len(),
{
    if s.len() > 0 {
        lemma_split_on_nonempty(s.drop_last(), sep);
    }
}


/// A string without the separator splits into itself alone.
proof fn lemma_split_on_no_sep(t: Seq<char>, sep: char)
    requires
        !t.contains(sep),
    ensures
        split_on(t, sep) == seq![t],
    decreases t.len(),
{
    if t.len() > 0 {
        assert(!t.drop_last().contains(sep)) by {
            if t.drop_last().contains(sep) {
                let k = choose|k: int| 0 <= k < t.drop_last().len() && t.drop_last()[k] == sep;
                assert(t[k] == sep);
            }
        }
        lemma_split_on_no_sep(t.drop_last(), sep);
        assert(t.last() != sep) by {
            assert(t[t.len() - 1] == t.last());
        }
        assert(t.drop_last().push(t.last()) =~= t);
        assert(seq![t.drop_last()].update(0, t.drop_last().push(t.last())) =~= seq![t]);
    } else {
        assert(t =~= Seq::<char>::empty());
    }
}

/// Splitting `t . r`, with no separator in `t`, gives `t` then the parts of `r`.
proof fn lemma_split_on_after_first(t: Seq<char>, r: Seq<char>, sep: char)
    requires
        !t.contains(sep),
    ensures
        split_on(t + seq![sep] + r, sep) == seq![t] + split_on(r, sep),
    decreases r.len(),
{
    let s = t + seq![sep] + r;
    if r.len() == 0 {
        assert(s.drop_last() =~= t);
        lemma_split_on_no_sep(t, sep);
        assert(seq![t].push(seq![]) =~= seq![t] + seq![seq![]]);
    } else {
        lemma_split_on_after_first(t, r.drop_last(), sep);
        assert(s.drop_last() =~= t + seq![sep] + r.drop_last());
        assert(s.last() == r.last());
        let prev = split_on(r.drop_last(), sep);
        lemma_split_on_nonempty(r.drop_last(), sep);
        if r.last() == sep {
            assert((seq![t] + prev).push(seq![]) =~= seq![t] + prev.push(seq![]));
        } else {
            let whole = seq![t] + prev;
            assert(whole.last() == prev.last());
            assert(whole.update(whole.len() - 1, whole.last().push(r.last())) =~= seq![t]
                + prev.update(prev.len() - 1, prev.last().push(r.last())));
        }
    }
}

/// The leading reverse-domain component (`com`, `org`, ...) is never part of
/// the label: ids that differ only in it get the same label.
pub proof fn law_top_level_domain_ignored(t1: Seq<char>, t2: Seq<char>, r: Seq<char>)
    requires
        !t1.contains('.'),
        !t2.contains('.'),
    ensures
        pkg_label(t1 + seq!['.'] + r) == pkg_label(t2 + seq!['.'] + r),
{
    lemma_split_on_after_first(t1, r, '.');
    lemma_split_on_after_first(t2, r, '.');
    assert((seq![t1] + split_on(r, '.')).drop_first() =~= split_on(r, '.'));
    assert((seq![t2] + split_on(r, '.')).drop_first() =~= split_on(r, '.'));
    lemma_split_on_nonempty(r, '.');
    assert(split_on(t1 + seq!['.'] + r, '.').drop_first() == split_on(r, '.'));
    assert(split_on(t2 + seq!['.'] + r, '.').drop_first() == split_on(r, '.'));
}

/// A segment that carries no name: generic plumbing or a variant.
pub open spec fn is_nameless_segment(seg: Seq<char>) -> bool {
    is_generic_segment(ascii_lower(seg)) || variant_label(ascii_lower(seg)) is Some
}

proof fn lemma_scan_nameless(rest: Seq<Seq<char>>)
    requires
        forall|i: int| 0 <= i < rest.len() ==> is_nameless_segment(#[trigger] rest[i]),
    ensures
        segment_scan(rest).0.len() == 0,
    decreases rest.len(),
{
    if rest.len() > 0 {
        assert(is_nameless_segment(rest[rest.len() - 1]));
        lemma_scan_nameless(rest.drop_last());
    }
}

/// When every segment after the first is generic or a variant, nothing
/// meaningful is left: the label is the last segment title-cased, with no
/// variant suffix (`com.android.phone` reads `Phone`, not `(Phone)`).
pub proof fn law_nameless_falls_back_to_last_segment(id: Seq<char>)
    requires
        split_on(id, '.').len() >= 2,
        forall|i: int|
            1 <= i < split_on(id, '.').len() ==> is_nameless_segment(
                #[trigger] split_on(id, '.')[i],
            ),
    ensures
        pkg_label(id) == title_case(split_on(id, '.').last()),
{
    let segs = split_on(id, '.');
    let rest = segs.drop_first();
    assert forall|i: int| 0 <= i < rest.len() implies is_nameless_segment(#[trigger] rest[i]) by {
        assert(rest[i] == segs[i + 1]);
    }
    lemma_scan_nameless(rest);
    assert(rest.last() == segs.last());
}

/// Lowercasing twice is lowercasing once.
proof fn lemma_ascii_lower_idempotent(w: Seq<char>)
    ensures
        ascii_lower(ascii_lower(w)) == ascii_lower(w),
{
    assert forall|i: int| 0 <= i < w.len() implies ascii_lower_char(ascii_lower_char(w[i]))
        == ascii_lower_char(w[i]) by {
        let c = w[i];
        if 'A' <= c && c <= 'Z' {
            assert(65 <= c as u32 <= 90);
            assert((((c as u32) + 32) as char) as u32 == (c as u32) + 32);
        }
    }
    assert(ascii_lower(ascii_lower(w)) =~= ascii_lower(w));
}

/// Well-known segments are recognised whatever their ASCII case:
/// `GMS`, `Gms` and `gms` expand alike.
pub proof fn law_known_segments_ignore_case(w: Seq<char>)
    requires
        known_expansion(ascii_lower(w)) is Some,
    ensures
        pretty_word_spec(w) == pretty_word_spec(ascii_lower(w)),
{
    lemma_ascii_lower_idempotent(w);
}

/// Segments joined back with `.` between them.
pub open spec fn join_dots(segs: Seq<Seq<char>>) -> Seq<char>
    decreases segs.len(),
{
    if segs.len() == 0 {
        seq![]
    } else if segs.len() == 1 {
        segs[0]
    } else {
        join_dots(segs.drop_last()) + seq!['.'] + segs.last()
    }
}

/// Splitting `a . b`, with no `.` in `b`, gives the parts of `a` then `b`.
proof fn lemma_split_on_last_part(a: Seq<char>, b: Seq<char>)
    requires
        !b.contains('.'),
    ensures
        split_on(a + seq!['.'] + b, '.') == split_on(a, '.').push(b),
    decreases b.len(),
{
    let s = a + seq!['.'] + b;
    if b.len() == 0 {
        assert(s.drop_last() =~= a);
        assert(b =~= Seq::<char>::empty());
    } else {
        assert(!b.drop_last().contains('.')) by {
            if b.drop_last().contains('.') {
                let k = choose|k: int| 0 <= k < b.drop_last().len() && b.drop_last()[k] == '.';
                assert(b[k] == '.');
            }
        }
        lemma_split_on_last_part(a, b.drop_last());
        assert(s.drop_last() =~= a + seq!['.'] + b.drop_last());
        assert(s.last() == b.last());
        assert(b.last() != '.') by {
            assert(b[b.len() - 1] == b.last());
        }
        let p = split_on(a, '.').push(b.drop_last());
        assert(b.drop_last().push(b.last()) =~= b);
        assert(p.last() == b.drop_last());
        assert(p.update(p.len() - 1, p.last().push(b.last())) =~= split_on(a, '.').push(b));
    }
}

/// Splitting segments joined with `.` gives the segments back.
pub proof fn lemma_split_join_dots(segs: Seq<Seq<char>>)
    requires
        segs.len() >= 1,
        forall|i: int| 0 <= i < segs.len() ==> !(#[trigger] segs[i]).contains('.'),
    ensures
        split_on(join_dots(segs), '.') == segs,
    decreases segs.len(),
{
    if segs.len() == 1 {
        lemma_split_on_no_sep(segs[0], '.');
        assert(seq![segs[0]] =~= segs);
    } else {
        lemma_split_join_dots(segs.drop_last());
        assert(segs.last() == segs[segs.len() - 1]);
        lemma_split_on_last_part(join_dots(segs.drop_last()), segs.last());
        assert(segs.drop_last().push(segs.last()) =~= segs);
    }
}

/// A generic segment inserted anywhere leaves the segment scan as it was.
proof fn lemma_scan_skips_generic(rest: Seq<Seq<char>>, k: int, g: Seq<char>)
    requires
        0 <= k <= rest.len(),
        is_generic_segment(ascii_lower(g)),
    ensures
        segment_scan(rest.insert(k, g)) == segment_scan(rest),
    decreases rest.len(),
{
    let ins = rest.insert(k, g);
    if k == rest.len() {
        assert(ins.drop_last() =~= rest);
        assert(ins.last() == g);
    } else {
        lemma_scan_skips_generic(rest.drop_last(), k, g);
        assert(ins.drop_last() =~= rest.drop_last().insert(k, g));
        assert(ins.last() == rest.last());
    }
}

/// A meaningful segment somewhere leaves at least one word.
proof fn lemma_scan_meaningful(rest: Seq<Seq<char>>, i: int)
    requires
        0 <= i < rest.len(),
        !is_nameless_segment(rest[i]),
    ensures
        segment_scan(rest).0.len() > 0,
    decreases rest.len(),
{
    if i < rest.len() - 1 {
        assert(rest.drop_last()[i] == rest[i]);
        lemma_scan_meaningful(rest.drop_last(), i);
    } else {
        assert(rest.last() == rest[i]);
    }
}

/// Generic plumbing segments never change the label: inserting one right
/// after any segment of an id that has a meaningful segment after its first
/// leaves the label as it was.
pub proof fn law_generic_segment_ignored(segs: Seq<Seq<char>>, k: int, g: Seq<char>)
    requires
        segs.len() >= 1,
        forall|i: int| 0 <= i < segs.len() ==> !(#[trigger] segs[i]).contains('.'),
        !g.contains('.'),
        is_generic_segment(ascii_lower(g)),
        0 <= k < segs.len(),
        exists|i: int| 1 <= i < segs.len() && !is_nameless_segment(#[trigger] segs[i]),
    ensures
        pkg_label(join_dots(segs.insert(k + 1, g))) == pkg_label(join_dots(segs)),
{
    let segs2 = segs.insert(k + 1, g);
    assert forall|i: int| 0 <= i < segs2.len() implies !(#[trigger] segs2[i]).contains('.') by {
        if i < k + 1 {
            assert(segs2[i] == segs[i]);
        } else if i > k + 1 {
            assert(segs2[i] == segs[i - 1]);
        }
    }
    lemma_split_join_dots(segs);
    lemma_split_join_dots(segs2);
    let rest = segs.drop_first();
    let rest2 = segs2.drop_first();
    assert(rest2 =~= rest.insert(k, g));
    lemma_scan_skips_generic(rest, k, g);
    let i = choose|i: int| 1 <= i < segs.len() && !is_nameless_segment(#[trigger] segs[i]);
    assert(rest[i - 1] == segs[i]);
    lemma_scan_meaningful(rest, i - 1);
}

/// Uppercasing `c` gives at least one character, with no separator and no
/// lowercase-to-uppercase step among them, ending in a lowercase character
/// only when `c` is lowercase itself (as `ª` uppercases to itself), and whose
/// first character uppercases to itself.
pub open spec fn casing_is_stable(c: char) -> bool {
    let u = char_to_uppercase(c);
    &&& u.len() >= 1
    &&& single_word(u)
    &&& char_is_lowercase(u.last()) ==> char_is_lowercase(c)
    &&& char_to_uppercase(u[0]) == seq![u[0]]
}

/// `x` holds no separator and no lowercase-to-uppercase (camelCase) step.
pub open spec fn single_word(x: Seq<char>) -> bool {
    &&& forall|p: int| 0 <= p < x.len() ==> !is_separator(#[trigger] x[p])
    &&& forall|p: int|
        #![trigger x[p]]
        1 <= p < x.len() ==> !(char_is_uppercase(x[p]) && char_is_lowercase(x[p - 1]))
}

/// `cases` gives the Unicode case of each character of `s`.
pub open spec fn cases_of(s: Seq<char>, cases: Seq<(bool, bool)>) -> bool {
    cases.len() >= s.len() && forall|i: int| 0 <= i < s.len() ==> cases[i] == char_case(
        #[trigger] s[i],
    )
}

/// The words the scan has finished, and the word it is building, are single
/// words made of characters of `s`, finished words are not empty, and the
/// scan remembers whether the word being built ends in a lowercase character.
proof fn lemma_scan_gives_single_words(s: Seq<char>, cases: Seq<(bool, bool)>)
    requires
        cases_of(s, cases),
    ensures
        forall|k: int|
            0 <= k < word_scan(s, cases).0.len() ==> (#[trigger] word_scan(s, cases).0[k]).len()
                > 0 && single_word(word_scan(s, cases).0[k]),
        forall|k: int, j: int|
            0 <= k < word_scan(s, cases).0.len() && 0 <= j < word_scan(s, cases).0[k].len()
                ==> s.contains(#[trigger] word_scan(s, cases).0[k][j]),
        single_word(word_scan(s, cases).1),
        forall|j: int|
            0 <= j < word_scan(s, cases).1.len() ==> s.contains(#[trigger] word_scan(s, cases).1[j]),
        word_scan(s, cases).2 == (word_scan(s, cases).1.len() > 0 && char_is_lowercase(
            word_scan(s, cases).1.last(),
        )),
    decreases s.len(),
{
    if s.len() > 0 {
        let p = s.drop_last();
        assert forall|i: int| 0 <= i < p.len() implies cases[i] == char_case(#[trigger] p[i]) by {
            assert(p[i] == s[i]);
        }
        lemma_scan_gives_single_words(p, cases);
        let (ws, cur, pl) = word_scan(p, cases);
        let ch = s.last();
        assert(s[s.len() - 1] == ch);
        assert(cases[s.len() - 1] == char_case(ch));
        assert forall|c: char| p.contains(c) implies s.contains(c) by {
            let i = choose|i: int| 0 <= i < p.len() && p[i] == c;
            assert(s[i] == c);
        }
        assert(s.contains(ch));
        let (ws2, cur2, pl2) = word_scan(s, cases);
        if is_separator(ch) {
            assert forall|k: int| 0 <= k < ws2.len() implies (#[trigger] ws2[k]).len() > 0
                && single_word(ws2[k]) by {
                if k < ws.len() {
                    assert(ws2[k] == ws[k]);
                }
            }
            assert forall|k: int, j: int| 0 <= k < ws2.len() && 0 <= j < ws2[k].len() implies s.contains(
                #[trigger] ws2[k][j],
            ) by {
                if k < ws.len() {
                    assert(ws2[k] == ws[k]);
                } else {
                    assert(ws2[k] == cur);
                }
            }
        } else if char_is_uppercase(ch) && pl && cur.len() > 0 {
            assert(cur2 =~= seq![ch]);
            assert forall|k: int| 0 <= k < ws2.len() implies (#[trigger] ws2[k]).len() > 0
                && single_word(ws2[k]) by {
                if k < ws.len() {
                    assert(ws2[k] == ws[k]);
                }
            }
            assert forall|k: int, j: int| 0 <= k < ws2.len() && 0 <= j < ws2[k].len() implies s.contains(
                #[trigger] ws2[k][j],
            ) by {
                if k < ws.len() {
                    assert(ws2[k] == ws[k]);
                } else {
                    assert(ws2[k] == cur);
                }
            }
        } else {
            assert(cur2 == cur.push(ch));
            assert(cur2.last() == ch);
            assert forall|q: int| 1 <= q < cur2.len() implies !(char_is_uppercase(
                #[trigger] cur2[q],
            ) && char_is_lowercase(cur2[q - 1])) by {
                if q < cur.len() {
                    assert(cur2[q] == cur[q] && cur2[q - 1] == cur[q - 1]);
                } else {
                    assert(cur2[q] == ch);
                    assert(cur2[q - 1] == cur.last());
                }
            }
            assert forall|q: int| 0 <= q < cur2.len() implies !is_separator(#[trigger] cur2[q]) by {
                if q < cur.len() {
                    assert(cur2[q] == cur[q]);
                }
            }
            assert forall|j: int| 0 <= j < cur2.len() implies s.contains(#[trigger] cur2[j]) by {
                if j < cur.len() {
                    assert(cur2[j] == cur[j]);
                }
            }
        }
    }
}

/// Scanning a single word finishes no word and builds the whole of it.
proof fn lemma_scan_single_word(x: Seq<char>, cases: Seq<(bool, bool)>)
    requires
        cases_of(x, cases),
        single_word(x),
    ensures
        word_scan(x, cases) == (Seq::<Seq<char>>::empty(), x, x.len() > 0 && char_is_lowercase(
            x.last(),
        )),
    decreases x.len(),
{
    if x.len() > 0 {
        let p = x.drop_last();
        assert forall|i: int| 0 <= i < p.len() implies cases[i] == char_case(#[trigger] p[i]) by {
            assert(p[i] == x[i]);
        }
        assert forall|q: int| 1 <= q < p.len() implies !(char_is_uppercase(#[trigger] p[q])
            && char_is_lowercase(p[q - 1])) by {
            assert(p[q] == x[q] && p[q - 1] == x[q - 1]);
        }
        assert forall|q: int| 0 <= q < p.len() implies !is_separator(#[trigger] p[q]) by {
            assert(p[q] == x[q]);
        }
        lemma_scan_single_word(p, cases);
        let ch = x.last();
        assert(x[x.len() - 1] == ch);
        assert(cases[x.len() - 1] == char_case(ch));
        if p.len() > 0 {
            assert(p.last() == x[x.len() - 2]);
        }
        assert(p.push(ch) =~= x);
    } else {
        assert(x =~= Seq::<char>::empty());
    }
}

/// Title-casing a non-empty single word whose first character has stable
/// casing gives a non-empty single word starting with that uppercase mapping.
proof fn lemma_title_word_single(w: Seq<char>)
    requires
        w.len() > 0,
        single_word(w),
        casing_is_stable(w[0]),
    ensures
        single_word(title_word(w)),
        title_word(w).len() > 0,
        title_word(w)[0] == char_to_uppercase(w[0])[0],
{
    let u = char_to_uppercase(w[0]);
    let t = title_word(w);
    assert(t == u + w.drop_first());
    assert forall|p: int| 0 <= p < t.len() implies !is_separator(#[trigger] t[p]) by {
        if p < u.len() {
            assert(t[p] == u[p]);
        } else {
            assert(t[p] == w[p - u.len() + 1]);
        }
    }
    assert forall|p: int| 1 <= p < t.len() implies !(char_is_uppercase(#[trigger] t[p])
        && char_is_lowercase(t[p - 1])) by {
        if p < u.len() {
            assert(t[p] == u[p] && t[p - 1] == u[p - 1]);
        } else if p == u.len() {
            assert(t[p - 1] == u.last());
            assert(t[p] == w[1]);
        } else {
            assert(t[p] == w[p - u.len() + 1]);
            assert(t[p - 1] == w[p - u.len()]);
        }
    }
}

/// Words joined by spaces stay a single word when the space is neither
/// uppercase nor lowercase; the result starts with the first word.
proof fn lemma_join_single(ts: Seq<Seq<char>>)
    requires
        ts.len() > 0,
        forall|k: int| 0 <= k < ts.len() ==> single_word(#[trigger] ts[k]) && ts[k].len() > 0,
        !char_is_lowercase(' '),
        !char_is_uppercase(' '),
    ensures
        single_word(join_words(ts)),
        join_words(ts).len() > 0,
        join_words(ts)[0] == ts[0][0],
    decreases ts.len(),
{
    if ts.len() > 1 {
        let p = ts.drop_last();
        assert forall|k: int| 0 <= k < p.len() implies single_word(#[trigger] p[k]) && p[k].len()
            > 0 by {
            assert(p[k] == ts[k]);
        }
        lemma_join_single(p);
        let a = join_words(p);
        let b = ts.last();
        assert(b == ts[ts.len() - 1]);
        let j = join_words(ts);
        assert(j == a + seq![' '] + b);
        assert(p[0] == ts[0]);
        assert forall|q: int| 0 <= q < j.len() implies !is_separator(#[trigger] j[q]) by {
            if q < a.len() {
                assert(j[q] == a[q]);
            } else if q > a.len() {
                assert(j[q] == b[q - a.len() - 1]);
            }
        }
        assert forall|q: int| 1 <= q < j.len() implies !(char_is_uppercase(#[trigger] j[q])
            && char_is_lowercase(j[q - 1])) by {
            if q < a.len() {
                assert(j[q] == a[q] && j[q - 1] == a[q - 1]);
            } else if q == a.len() {
                assert(j[q] == ' ');
            } else if q == a.len() + 1 {
                assert(j[q - 1] == ' ');
            } else {
                assert(j[q] == b[q - a.len() - 1] && j[q - 1] == b[q - a.len() - 2]);
            }
        }
    } else {
        assert(join_words(ts) == ts[0]);
    }
}

/// Title-casing its own output changes nothing, where casing behaves: every
/// character of the segment has stable casing (see [`casing_is_stable`]),
/// and the space is neither uppercase nor lowercase.
pub proof fn law_title_case_idempotent(s: Seq<char>)
    requires
        forall|i: int| 0 <= i < s.len() ==> casing_is_stable(#[trigger] s[i]),
        !char_is_lowercase(' '),
        !char_is_uppercase(' '),
    ensures
        title_case(title_case(s)) == title_case(s),
{
    let cases = s.map_values(|c: char| char_case(c));
    assert(cases_of(s, cases));
    lemma_scan_gives_single_words(s, cases);
    let ws = segment_words(s);
    let (w0, cur, pl) = word_scan(s, cases);
    assert forall|k: int| 0 <= k < ws.len() implies (#[trigger] ws[k]).len() > 0 && single_word(
        ws[k],
    ) && casing_is_stable(ws[k][0]) by {
        if k < w0.len() {
            assert(ws[k] == w0[k]);
            assert(s.contains(w0[k][0]));
        } else {
            assert(ws[k] == cur);
            assert(s.contains(cur[0]));
        }
    }
    if ws.len() > 0 {
        let ts = ws.map_values(|w: Seq<char>| title_word(w));
        assert forall|k: int| 0 <= k < ts.len() implies single_word(#[trigger] ts[k]) && ts[k].len()
            > 0 by {
            lemma_title_word_single(ws[k]);
        }
        lemma_join_single(ts);
        let o = title_case(s);
        assert(o == join_words(ts));
        lemma_title_word_single(ws[0]);
        let oc = o.map_values(|c: char| char_case(c));
        assert(cases_of(o, oc));
        lemma_scan_single_word(o, oc);
        assert(segment_words(o) =~= seq![o]);
        let u0 = char_to_uppercase(ws[0][0]);
        assert(o[0] == u0[0]);
        assert(seq![o].map_values(|w: Seq<char>| title_word(w)) =~= seq![title_word(o)]);
        assert(title_word(o) =~= o);
    } else {
        assert(title_case(s) == s);
    }
}

/// A lowercased segment that starts with `tv`.
pub open spec fn starts_with_tv(lower: Seq<char>) -> bool {
    lower.len() >= 2 && lower[0] == 't' && lower[1] == 'v'
}

/// With no variant segment, the scan sets no variant; and when some segment
/// is not generic, the last such segment, as written, is the last word.
proof fn lemma_scan_plain_segments(rest: Seq<Seq<char>>, j: int)
    requires
        forall|k: int|
            0 <= k < rest.len() ==> variant_label(ascii_lower(#[trigger] rest[k])) is None
                && !starts_with_tv(ascii_lower(rest[k])),
        -1 <= j < rest.len(),
        j >= 0 ==> !is_generic_segment(ascii_lower(rest[j])),
        j >= 0 ==> forall|k: int|
            j < k < rest.len() ==> is_generic_segment(ascii_lower(#[trigger] rest[k])),
    ensures
        segment_scan(rest).1 is None,
        j >= 0 ==> segment_scan(rest).0.len() > 0 && segment_scan(rest).0.last() == (
            rest[j],
            false,
        ),
    decreases rest.len(),
{
    if rest.len() > 0 {
        let p = rest.drop_last();
        let last = rest.last();
        assert(last == rest[rest.len() - 1]);
        assert forall|k: int| 0 <= k < p.len() implies variant_label(
            ascii_lower(#[trigger] p[k]),
        ) is None && !starts_with_tv(ascii_lower(p[k])) by {
            assert(p[k] == rest[k]);
        }
        assert(variant_label(ascii_lower(last)) is None && !starts_with_tv(ascii_lower(last)));
        assert(glued_tv_rest(ascii_lower(last)) is None);
        if j == rest.len() - 1 {
            lemma_scan_plain_segments(p, -1);
        } else {
            if j >= 0 {
                assert(is_generic_segment(ascii_lower(last)));
                assert(p[j] == rest[j]);
                assert forall|k: int| j < k < p.len() implies is_generic_segment(
                    ascii_lower(#[trigger] p[k]),
                ) by {
                    assert(p[k] == rest[k]);
                }
            }
            lemma_scan_plain_segments(p, j);
        }
    }
}

/// Only a glued `tv` is ever split off a segment: when no segment after the
/// top-level domain is a variant word or starts with `tv`, the label is just
/// the last segment that is not generic, rendered as a word, with no
/// variant suffix. So `com.google.android.wearable.app` reads `Wearable`.
pub proof fn law_only_tv_is_split_off(id: Seq<char>, j: int)
    requires
        1 <= j < split_on(id, '.').len(),
        forall|k: int|
            1 <= k < split_on(id, '.').len() ==> variant_label(
                ascii_lower(#[trigger] split_on(id, '.')[k]),
            ) is None && !starts_with_tv(ascii_lower(split_on(id, '.')[k])),
        !is_generic_segment(ascii_lower(split_on(id, '.')[j])),
        forall|k: int|
            j < k < split_on(id, '.').len() ==> is_generic_segment(
                ascii_lower(#[trigger] split_on(id, '.')[k]),
            ),
    ensures
        pkg_label(id) == pretty_word_spec(split_on(id, '.')[j]),
{
    let segs = split_on(id, '.');
    let rest = segs.drop_first();
    assert forall|k: int| 0 <= k < rest.len() implies variant_label(
        ascii_lower(#[trigger] rest[k]),
    ) is None && !starts_with_tv(ascii_lower(rest[k])) by {
        assert(rest[k] == segs[k + 1]);
    }
    assert forall|k: int| j - 1 < k < rest.len() implies is_generic_segment(
        ascii_lower(#[trigger] rest[k]),
    ) by {
        assert(rest[k] == segs[k + 1]);
    }
    assert(rest[j - 1] == segs[j]);
    lemma_scan_plain_segments(rest, j - 1);
    let w = pretty_word_spec(segs[j]);
    assert(Seq::<char>::empty() + w + Seq::<char>::empty() =~= w);
}

/// An id without any `.` is its own segment, title-cased.
pub proof fn law_id_without_dot(id: Seq<char>)
    requires
        !id.contains('.'),
    ensures
        pkg_label(id) == title_case(id),
{
    lemma_split_on_no_sep(id, '.');
    assert(seq![id].drop_first().len() == 0);
}

} // verus!
