//! The persisted score document: a small markup dialect with one root
//! `scores` element, one `difficulty` element per score group carrying a
//! `name` attribute, and one self-closing `score` element per entry carrying
//! `score`, `user` and optional `time` attributes. Attribute values use the
//! five standard character entities. This module states the grammar as
//! specification functions and provides the verified parser and serializer.
use vstd::prelude::*;

use crate::score_manager::entries_view;
use crate::score_manager::entry_view;
use crate::score_manager::EntryView;
use crate::score_manager::GroupView;
use crate::score_manager::ScoreEntry;
use crate::score_manager::ScoreGroup;
use crate::text::chars_to_string;
use crate::text::parse_u64;
use crate::text::spec_parse_u64;

verus! {

/// An attribute as parsed: its name and its unescaped value.
pub type AttrView = (Seq<char>, Seq<char>);

/// The characters the grammar treats as blank space between elements and
/// attributes.
pub open spec fn spec_is_ws(c: char) -> bool {
    c == ' ' || c == '\n' || c == '\r' || c == '\t'
}

/// The first position at or after `i` holding a non-blank character.
pub open spec fn spec_skip_ws(s: Seq<char>, i: int) -> int
    decreases s.len() - i,
{
    if i < 0 || i >= s.len() {
        i
    } else if spec_is_ws(s[i]) {
        spec_skip_ws(s, i + 1)
    } else {
        i
    }
}

/// Whether the document carries exactly `lit` starting at position `i`.
pub open spec fn spec_has_lit(s: Seq<char>, i: int, lit: Seq<char>) -> bool {
    0 <= i && i + lit.len() <= s.len() && s.subrange(i, i + lit.len()) == lit
}

/// A character that may stand in an attribute name: anything but blanks and
/// the markup delimiters.
pub open spec fn spec_is_name_char(c: char) -> bool {
    !(spec_is_ws(c) || c == '=' || c == '"' || c == '>' || c == '/' || c == '<')
}

/// The longest run of name characters starting at `i`, and the position
/// after it.
pub open spec fn spec_parse_name(s: Seq<char>, i: int) -> (Seq<char>, int)
    decreases s.len() - i,
{
    if 0 <= i < s.len() && spec_is_name_char(s[i]) {
        let (rest, j) = spec_parse_name(s, i + 1);
        (seq![s[i]] + rest, j)
    } else {
        (Seq::<char>::empty(), i)
    }
}

/// An attribute value read up to — not including — its closing quote, with
/// the five character entities replaced; a raw `<` or `&`, or a missing
/// closing quote, is malformed.
pub open spec fn spec_parse_value(s: Seq<char>, i: int) -> Option<(Seq<char>, int)>
    decreases s.len() - i,
{
    if !(0 <= i < s.len()) {
        None
    } else if s[i] == '"' {
        Some((Seq::<char>::empty(), i))
    } else if s[i] == '<' {
        None
    } else if s[i] == '&' {
        let (c, j): (char, int) = if spec_has_lit(s, i, "&amp;"@) {
            ('&', i + "&amp;"@.len())
        } else if spec_has_lit(s, i, "&lt;"@) {
            ('<', i + "&lt;"@.len())
        } else if spec_has_lit(s, i, "&gt;"@) {
            ('>', i + "&gt;"@.len())
        } else if spec_has_lit(s, i, "&quot;"@) {
            ('"', i + "&quot;"@.len())
        } else if spec_has_lit(s, i, "&apos;"@) {
            ('\'', i + "&apos;"@.len())
        } else {
            (' ', -1)
        };
        if !(i < j <= s.len()) {
            None
        } else {
            match spec_parse_value(s, j) {
                None => None,
                Some((rest, k)) => Some((seq![c] + rest, k)),
            }
        }
    } else {
        match spec_parse_value(s, i + 1) {
            None => None,
            Some((rest, k)) => Some((seq![s[i]] + rest, k)),
        }
    }
}

/// The attribute list of a tag: blank-separated `name="value"` pairs, ending
/// before the character that closes the tag.
pub open spec fn spec_parse_attrs(s: Seq<char>, i: int) -> Option<(Seq<AttrView>, int)>
    decreases s.len() - i,
{
    if !(0 <= i <= s.len()) {
        None
    } else {
        let j = spec_skip_ws(s, i);
        if !(i <= j <= s.len()) {
            None
        } else if j == s.len() {
            // the tag is never closed
            None
        } else if !spec_is_name_char(s[j]) {
            Some((Seq::<AttrView>::empty(), j))
        } else {
            let (name, k) = spec_parse_name(s, j);
            if !(j < k && k + 2 <= s.len() && s[k] == '=' && s[k + 1] == '"') {
                None
            } else {
                match spec_parse_value(s, k + 2) {
                    None => None,
                    Some((val, m)) => if !(k + 2 <= m && m + 1 <= s.len()) {
                        None
                    } else {
                        match spec_parse_attrs(s, m + 1) {
                            None => None,
                            Some((rest, e)) => Some((seq![(name, val)] + rest, e)),
                        }
                    },
                }
            }
        }
    }
}

/// The first `name` attribute of a tag, the one the difficulty of a group is
/// read from.
pub open spec fn spec_attr_name(attrs: Seq<AttrView>) -> Option<Seq<char>>
    decreases attrs.len(),
{
    if attrs.len() == 0 {
        None
    } else if attrs.first().0 == "name"@ {
        Some(attrs.first().1)
    } else {
        spec_attr_name(attrs.drop_first())
    }
}

/// One pass over a score tag's attributes, later occurrences overriding
/// earlier ones: the score, user and time fields gathered so far. A `score`
/// or `time` value that is not an unsigned decimal number is malformed
/// wherever it stands.
pub open spec fn spec_scan_attrs(attrs: Seq<AttrView>) -> Option<
    (Option<u64>, Option<Seq<char>>, Option<u64>),
>
    decreases attrs.len(),
{
    if attrs.len() == 0 {
        Some((None, None, None))
    } else {
        match spec_scan_attrs(attrs.drop_last()) {
            None => None,
            Some((sc, us, tm)) => {
                let a = attrs.last();
                if a.0 == "score"@ {
                    match spec_parse_u64(a.1) {
                        None => None,
                        Some(n) => Some((Some(n), us, tm)),
                    }
                } else if a.0 == "user"@ {
                    Some((sc, Some(a.1), tm))
                } else if a.0 == "time"@ {
                    match spec_parse_u64(a.1) {
                        None => None,
                        Some(n) => Some((sc, us, Some(n))),
                    }
                } else {
                    Some((sc, us, tm))
                }
            },
        }
    }
}

/// One self-closing score tag. The inner option is the entry it denotes:
/// a tag whose score or user attribute is missing denotes no entry at all
/// and is skipped rather than rejected.
pub open spec fn spec_parse_entry(s: Seq<char>, i: int) -> Option<(Option<EntryView>, int)> {
    if !spec_has_lit(s, i, "<score"@) {
        None
    } else {
        match spec_parse_attrs(s, i + "<score"@.len()) {
            None => None,
            Some((attrs, k)) => if !spec_has_lit(s, k, "/>"@) {
                None
            } else {
                match spec_scan_attrs(attrs) {
                    None => None,
                    Some((sc, us, tm)) => {
                        let fin = k + "/>"@.len();
                        match (sc, us) {
                            (Some(n), Some(u)) => Some((Some((n, u, tm)), fin)),
                            _ => Some((None, fin)),
                        }
                    },
                }
            },
        }
    }
}

/// The run of score tags inside a group, ending — after blanks — at the
/// closing tag that follows them.
pub open spec fn spec_parse_entries(s: Seq<char>, i: int) -> Option<(Seq<EntryView>, int)>
    decreases s.len() - i,
{
    if !(0 <= i <= s.len()) {
        None
    } else {
        let j = spec_skip_ws(s, i);
        if !(i <= j <= s.len()) {
            None
        } else if spec_has_lit(s, j, "</"@) || j == s.len() {
            Some((Seq::<EntryView>::empty(), j))
        } else {
            match spec_parse_entry(s, j) {
                None => None,
                Some((e, k)) => if !(j < k && k <= s.len()) {
                    None
                } else {
                    match spec_parse_entries(s, k) {
                        None => None,
                        Some((rest, m)) => Some(
                            (
                                match e {
                                    Some(e) => seq![e] + rest,
                                    None => rest,
                                },
                                m,
                            ),
                        ),
                    }
                },
            }
        }
    }
}

/// One difficulty element: its name attribute — which it must carry — and
/// the entries between its tags.
pub open spec fn spec_parse_group(s: Seq<char>, i: int) -> Option<(GroupView, int)> {
    if !spec_has_lit(s, i, "<difficulty"@) {
        None
    } else {
        match spec_parse_attrs(s, i + "<difficulty"@.len()) {
            None => None,
            Some((attrs, k)) => if !(k < s.len() && s[k] == '>') {
                None
            } else {
                match spec_attr_name(attrs) {
                    // a group without a difficulty name has no key to file
                    // its entries under: the structure is malformed
                    None => None,
                    Some(name) => match spec_parse_entries(s, k + 1) {
                        None => None,
                        Some((es, m)) => if !spec_has_lit(s, m, "</difficulty>"@) {
                            None
                        } else {
                            Some(((name, es), m + "</difficulty>"@.len()))
                        },
                    },
                }
            },
        }
    }
}

/// The run of difficulty elements inside the root, ending — after blanks —
/// at the closing tag that follows them.
pub open spec fn spec_parse_groups(s: Seq<char>, i: int) -> Option<(Seq<GroupView>, int)>
    decreases s.len() - i,
{
    if !(0 <= i <= s.len()) {
        None
    } else {
        let j = spec_skip_ws(s, i);
        if !(i <= j <= s.len()) {
            None
        } else if spec_has_lit(s, j, "</"@) || j == s.len() {
            Some((Seq::<GroupView>::empty(), j))
        } else {
            match spec_parse_group(s, j) {
                None => None,
                Some((g, k)) => if !(j < k && k <= s.len()) {
                    None
                } else {
                    match spec_parse_groups(s, k) {
                        None => None,
                        Some((rest, m)) => Some((seq![g] + rest, m)),
                    }
                },
            }
        }
    }
}

/// What the whole document denotes: the sequence of score groups, in
/// document order — or nothing, when the structure is malformed.
pub open spec fn spec_parse_doc(s: Seq<char>) -> Option<Seq<GroupView>> {
    let i = spec_skip_ws(s, 0);
    if !spec_has_lit(s, i, "<scores>"@) {
        None
    } else {
        match spec_parse_groups(s, i + "<scores>"@.len()) {
            None => None,
            Some((gs, j)) => if !spec_has_lit(s, j, "</scores>"@) {
                None
            } else if spec_skip_ws(s, j + "</scores>"@.len()) != s.len() {
                None
            } else {
                Some(gs)
            },
        }
    }
}

/// The mathematical values of a parsed attribute list.
pub open spec fn attrs_view(a: Seq<(Vec<char>, Vec<char>)>) -> Seq<AttrView> {
    a.map_values(|p: (Vec<char>, Vec<char>)| (p.0@, p.1@))
}

/// The mathematical values of a row of parsed score groups.
pub open spec fn groups_view(gs: Seq<ScoreGroup>) -> Seq<GroupView> {
    gs.map_values(|g: ScoreGroup| g@)
}

fn is_ws_char(c: char) -> (r: bool)
    ensures
        r == spec_is_ws(c),
{
    c == ' ' || c == '\n' || c == '\r' || c == '\t'
}

fn is_name_char(c: char) -> (r: bool)
    ensures
        r == spec_is_name_char(c),
{
    !(c == ' ' || c == '\n' || c == '\r' || c == '\t' || c == '=' || c == '"' || c == '>' || c
        == '/' || c == '<')
}

fn skip_ws(doc: &Vec<char>, i: usize) -> (r: usize)
    requires
        i <= doc@.len(),
    ensures
        r == spec_skip_ws(doc@, i as int),
        i <= r <= doc@.len(),
{
    let mut j = i;
    while j < doc.len() && is_ws_char(doc[j])
        invariant
            i <= j <= doc@.len(),
            spec_skip_ws(doc@, i as int) == spec_skip_ws(doc@, j as int),
        decreases doc@.len() - j,
    {
        j = j + 1;
    }
    j
}

fn check_lit(doc: &Vec<char>, i: usize, lit: &str) -> (r: bool)
    requires
        i <= doc@.len(),
    ensures
        r == spec_has_lit(doc@, i as int, lit@),
{
    let n = lit.unicode_len();
    if n > doc.len() - i {
        return false;
    }
    let mut j: usize = 0;
    while j < n
        invariant
            n == lit@.len(),
            i + n <= doc@.len(),
            doc@.len() <= usize::MAX,
            j <= n,
            forall|t: int| 0 <= t < j ==> doc@[i + t] == lit@[t],
        decreases n - j,
    {
        if doc[i + j] != lit.get_char(j) {
            proof {
                assert(doc@.subrange(i as int, i + lit@.len())[j as int] == doc@[i + j]);
            }
            return false;
        }
        j = j + 1;
    }
    proof {
        assert(doc@.subrange(i as int, i + lit@.len()) =~= lit@);
    }
    true
}

/// Whether the characters of `v` spell exactly `lit`.
fn chars_eq_lit(v: &Vec<char>, lit: &str) -> (r: bool)
    ensures
        r == (v@ == lit@),
{
    let n = lit.unicode_len();
    if v.len() != n {
        return false;
    }
    let mut j: usize = 0;
    while j < n
        invariant
            n == lit@.len(),
            v@.len() == n,
            j <= n,
            forall|t: int| 0 <= t < j ==> v@[t] == lit@[t],
        decreases n - j,
    {
        if v[j] != lit.get_char(j) {
            return false;
        }
        j = j + 1;
    }
    proof {
        assert(v@ =~= lit@);
    }
    true
}

fn parse_name(doc: &Vec<char>, i: usize) -> (r: (Vec<char>, usize))
    requires
        i <= doc@.len(),
    ensures
        ({
            let (sn, sj) = spec_parse_name(doc@, i as int);
            &&& r.0@ == sn
            &&& r.1 == sj
            &&& i <= r.1 <= doc@.len()
            &&& r.0@.len() == r.1 - i
        }),
    decreases doc@.len() - i,
{
    if i < doc.len() && is_name_char(doc[i]) {
        let pair = parse_name(doc, i + 1);
        let mut rest = pair.0;
        let ghost pre = rest@;
        rest.insert(0, doc[i]);
        proof {
            assert(rest@ =~= seq![doc@[i as int]] + pre);
        }
        (rest, pair.1)
    } else {
        (Vec::new(), i)
    }
}

fn parse_value(doc: &Vec<char>, i: usize) -> (r: Option<(Vec<char>, usize)>)
    requires
        i <= doc@.len(),
    ensures
        ({
            let s = spec_parse_value(doc@, i as int);
            match (r, s) {
                (Some((v, p)), Some((sv, sp))) => v@ == sv && p == sp && i <= p <= doc@.len(),
                (None, None) => true,
                _ => false,
            }
        }),
    decreases doc@.len() - i,
{
    if i >= doc.len() {
        return None;
    }
    let c = doc[i];
    if c == '"' {
        return Some((Vec::new(), i));
    }
    if c == '<' {
        return None;
    }
    if c == '&' {
        proof {
            reveal_strlit("&amp;");
            reveal_strlit("&lt;");
            reveal_strlit("&gt;");
            reveal_strlit("&quot;");
            reveal_strlit("&apos;");
        }
        let (ec, j): (char, usize) = if check_lit(doc, i, "&amp;") {
            ('&', i + 5)
        } else if check_lit(doc, i, "&lt;") {
            ('<', i + 4)
        } else if check_lit(doc, i, "&gt;") {
            ('>', i + 4)
        } else if check_lit(doc, i, "&quot;") {
            ('"', i + 6)
        } else if check_lit(doc, i, "&apos;") {
            ('\'', i + 6)
        } else {
            (' ', 0)
        };
        if j == 0 {
            return None;
        }
        match parse_value(doc, j) {
            None => None,
            Some(rp) => {
                let mut rest = rp.0;
                let ghost pre = rest@;
                rest.insert(0, ec);
                proof {
                    assert(rest@ =~= seq![ec] + pre);
                }
                Some((rest, rp.1))
            },
        }
    } else {
        match parse_value(doc, i + 1) {
            None => None,
            Some(rp) => {
                let mut rest = rp.0;
                let ghost pre = rest@;
                rest.insert(0, c);
                proof {
                    assert(rest@ =~= seq![c] + pre);
                }
                Some((rest, rp.1))
            },
        }
    }
}

fn parse_attrs(doc: &Vec<char>, i: usize) -> (r: Option<(Vec<(Vec<char>, Vec<char>)>, usize)>)
    requires
        i <= doc@.len(),
    ensures
        ({
            let s = spec_parse_attrs(doc@, i as int);
            match (r, s) {
                (Some((a, p)), Some((sa, sp))) => attrs_view(a@) == sa && p == sp && i <= p
                    <= doc@.len(),
                (None, None) => true,
                _ => false,
            }
        }),
    decreases doc@.len() - i,
{
    let j = skip_ws(doc, i);
    if j == doc.len() {
        return None;
    }
    if !is_name_char(doc[j]) {
        proof {
            assert(attrs_view(Seq::<(Vec<char>, Vec<char>)>::empty()) =~= Seq::<
                AttrView,
            >::empty());
        }
        return Some((Vec::new(), j));
    }
    let pair = parse_name(doc, j);
    let name = pair.0;
    let k = pair.1;
    if doc.len() - k < 2 {
        return None;
    }
    if !(doc[k] == '=' && doc[k + 1] == '"') {
        return None;
    }
    match parse_value(doc, k + 2) {
        None => None,
        Some(vp) => {
            let val = vp.0;
            let m = vp.1;
            if !(m < doc.len()) {
                return None;
            }
            match parse_attrs(doc, m + 1) {
                None => None,
                Some(rp) => {
                    let mut rest = rp.0;
                    let ghost pre = rest@;
                    let ghost namev = name@;
                    let ghost valv = val@;
                    rest.insert(0, (name, val));
                    proof {
                        assert(attrs_view(rest@) =~= seq![(namev, valv)] + attrs_view(pre));
                    }
                    Some((rest, rp.1))
                },
            }
        },
    }
}

/// The first `name` attribute decides when it stands at index `t` with no
/// earlier occurrence.
proof fn lemma_attr_name_found(a: Seq<AttrView>, t: int)
    requires
        0 <= t < a.len(),
        a[t].0 == "name"@,
        forall|k: int| 0 <= k < t ==> a[k].0 != "name"@,
    ensures
        spec_attr_name(a) == Some(a[t].1),
    decreases t,
{
    if t > 0 {
        lemma_attr_name_found(a.drop_first(), t - 1);
    }
}

/// Without any `name` attribute there is nothing to find.
proof fn lemma_attr_name_missing(a: Seq<AttrView>)
    requires
        forall|k: int| 0 <= k < a.len() ==> a[k].0 != "name"@,
    ensures
        spec_attr_name(a) is None,
    decreases a.len(),
{
    if a.len() > 0 {
        lemma_attr_name_missing(a.drop_first());
    }
}

fn attr_name(attrs: &Vec<(Vec<char>, Vec<char>)>) -> (r: Option<usize>)
    ensures
        ({
            let s = spec_attr_name(attrs_view(attrs@));
            match (r, s) {
                (Some(t), Some(sv)) => t < attrs@.len() && attrs@[t as int].1@ == sv,
                (None, None) => true,
                _ => false,
            }
        }),
{
    let mut t: usize = 0;
    while t < attrs.len()
        invariant
            t <= attrs@.len(),
            forall|k: int| 0 <= k < t ==> attrs_view(attrs@)[k].0 != "name"@,
        decreases attrs@.len() - t,
    {
        if chars_eq_lit(&attrs[t].0, "name") {
            proof {
                lemma_attr_name_found(attrs_view(attrs@), t as int);
            }
            return Some(t);
        }
        t = t + 1;
    }
    proof {
        lemma_attr_name_missing(attrs_view(attrs@));
    }
    None
}

/// A malformed prefix of an attribute scan poisons every longer scan.
proof fn lemma_scan_attrs_extends(a: Seq<AttrView>, i: int)
    requires
        0 <= i <= a.len(),
        spec_scan_attrs(a.take(i)) is None,
    ensures
        spec_scan_attrs(a) is None,
    decreases a.len() - i,
{
    if i < a.len() {
        assert(a.take(i + 1).drop_last() =~= a.take(i));
        lemma_scan_attrs_extends(a, i + 1);
    } else {
        assert(a.take(i) =~= a);
    }
}

fn scan_attrs(attrs: &Vec<(Vec<char>, Vec<char>)>) -> (r: Option<
    (Option<u64>, Option<String>, Option<u64>),
>)
    ensures
        ({
            let s = spec_scan_attrs(attrs_view(attrs@));
            match (r, s) {
                (Some((sc, us, tm)), Some((ssc, sus, stm))) => sc == ssc && tm == stm && (match (
                    us,
                    sus,
                ) {
                    (Some(u), Some(su)) => u@ == su,
                    (None, None) => true,
                    _ => false,
                }),
                (None, None) => true,
                _ => false,
            }
        }),
{
    let ghost av = attrs_view(attrs@);
    let mut sc: Option<u64> = None;
    let mut user_idx: Option<usize> = None;
    let mut tm: Option<u64> = None;
    let mut i: usize = 0;
    while i < attrs.len()
        invariant
            i <= attrs@.len(),
            av == attrs_view(attrs@),
            ({
                let s = spec_scan_attrs(av.take(i as int));
                &&& s is Some
                &&& ({
                    let (ssc, sus, stm) = s->0;
                    &&& ssc == sc
                    &&& stm == tm
                    &&& match (user_idx, sus) {
                        (Some(t), Some(su)) => t < i && attrs@[t as int].1@ == su,
                        (None, None) => true,
                        _ => false,
                    }
                })
            }),
        decreases attrs@.len() - i,
    {
        proof {
            assert(av.take(i + 1).drop_last() =~= av.take(i as int));
            assert(av.take(i + 1).last() == av[i as int]);
        }
        let a = &attrs[i];
        if chars_eq_lit(&a.0, "score") {
            match parse_u64(&a.1) {
                Some(n) => {
                    sc = Some(n);
                },
                None => {
                    proof {
                        lemma_scan_attrs_extends(av, i + 1);
                    }
                    return None;
                },
            }
        } else if chars_eq_lit(&a.0, "user") {
            user_idx = Some(i);
        } else if chars_eq_lit(&a.0, "time") {
            match parse_u64(&a.1) {
                Some(n) => {
                    tm = Some(n);
                },
                None => {
                    proof {
                        lemma_scan_attrs_extends(av, i + 1);
                    }
                    return None;
                },
            }
        }
        i = i + 1;
    }
    proof {
        assert(av.take(attrs@.len() as int) =~= av);
    }
    let user: Option<String> = match user_idx {
        Some(t) => Some(chars_to_string(&attrs[t].1)),
        None => None,
    };
    Some((sc, user, tm))
}

fn parse_entry(doc: &Vec<char>, i: usize) -> (r: Option<(Option<ScoreEntry>, usize)>)
    requires
        i <= doc@.len(),
    ensures
        ({
            let s = spec_parse_entry(doc@, i as int);
            match (r, s) {
                (Some((eo, p)), Some((seo, sp))) => p == sp && i < p <= doc@.len() && (match (
                    eo,
                    seo,
                ) {
                    (Some(e), Some(se)) => entry_view(e) == se,
                    (None, None) => true,
                    _ => false,
                }),
                (None, None) => true,
                _ => false,
            }
        }),
{
    proof {
        reveal_strlit("<score");
        assert(doc.len() == doc@.len());
    }
    if !check_lit(doc, i, "<score") {
        return None;
    }
    let l = "<score".unicode_len();
    match parse_attrs(doc, i + l) {
        None => None,
        Some(ap) => {
            let attrs = ap.0;
            let k = ap.1;
            if !check_lit(doc, k, "/>") {
                return None;
            }
            match scan_attrs(&attrs) {
                None => None,
                Some((sc, us, tm)) => {
                    let l2 = "/>".unicode_len();
                    let fin = k + l2;
                    match (sc, us) {
                        (Some(n), Some(u)) => Some((Some((n, u, tm)), fin)),
                        _ => Some((None, fin)),
                    }
                },
            }
        },
    }
}

fn parse_entries(doc: &Vec<char>, i: usize) -> (r: Option<(Vec<ScoreEntry>, usize)>)
    requires
        i <= doc@.len(),
    ensures
        ({
            let s = spec_parse_entries(doc@, i as int);
            match (r, s) {
                (Some((v, p)), Some((sv, sp))) => entries_view(v@) == sv && p == sp && i <= p
                    <= doc@.len(),
                (None, None) => true,
                _ => false,
            }
        }),
    decreases doc@.len() - i,
{
    let j = skip_ws(doc, i);
    if j == doc.len() || check_lit(doc, j, "</") {
        proof {
            assert(entries_view(Seq::<ScoreEntry>::empty()) =~= Seq::<EntryView>::empty());
        }
        return Some((Vec::new(), j));
    }
    match parse_entry(doc, j) {
        None => None,
        Some(ep) => {
            let eo = ep.0;
            let k = ep.1;
            match parse_entries(doc, k) {
                None => None,
                Some(rp) => {
                    let mut rest = rp.0;
                    let ghost pre = rest@;
                    match eo {
                        Some(e) => {
                            let ghost ev = entry_view(e);
                            rest.insert(0, e);
                            proof {
                                assert(entries_view(rest@) =~= seq![ev] + entries_view(pre));
                            }
                        },
                        None => {},
                    }
                    Some((rest, rp.1))
                },
            }
        },
    }
}

fn parse_group(doc: &Vec<char>, i: usize) -> (r: Option<(ScoreGroup, usize)>)
    requires
        i <= doc@.len(),
    ensures
        ({
            let s = spec_parse_group(doc@, i as int);
            match (r, s) {
                (Some((g, p)), Some((sg, sp))) => g@ == sg && p == sp && i < p <= doc@.len(),
                (None, None) => true,
                _ => false,
            }
        }),
{
    proof {
        reveal_strlit("<difficulty");
        assert(doc.len() == doc@.len());
    }
    if !check_lit(doc, i, "<difficulty") {
        return None;
    }
    let l = "<difficulty".unicode_len();
    match parse_attrs(doc, i + l) {
        None => None,
        Some(ap) => {
            let attrs = ap.0;
            let k = ap.1;
            if !(k < doc.len()) {
                return None;
            }
            if doc[k] != '>' {
                return None;
            }
            match attr_name(&attrs) {
                None => None,
                Some(t) => {
                    let name = chars_to_string(&attrs[t].1);
                    match parse_entries(doc, k + 1) {
                        None => None,
                        Some(ep) => {
                            let entries = ep.0;
                            let m = ep.1;
                            if !check_lit(doc, m, "</difficulty>") {
                                return None;
                            }
                            let l3 = "</difficulty>".unicode_len();
                            let group = ScoreGroup { name, entries };
                            Some((group, m + l3))
                        },
                    }
                },
            }
        },
    }
}

fn parse_groups(doc: &Vec<char>, i: usize) -> (r: Option<(Vec<ScoreGroup>, usize)>)
    requires
        i <= doc@.len(),
    ensures
        ({
            let s = spec_parse_groups(doc@, i as int);
            match (r, s) {
                (Some((v, p)), Some((sv, sp))) => groups_view(v@) == sv && p == sp && i <= p
                    <= doc@.len(),
                (None, None) => true,
                _ => false,
            }
        }),
    decreases doc@.len() - i,
{
    let j = skip_ws(doc, i);
    if j == doc.len() || check_lit(doc, j, "</") {
        proof {
            assert(groups_view(Seq::<ScoreGroup>::empty()) =~= Seq::<GroupView>::empty());
        }
        return Some((Vec::new(), j));
    }
    match parse_group(doc, j) {
        None => None,
        Some(gp) => {
            let g = gp.0;
            let k = gp.1;
            let ghost gv = g@;
            match parse_groups(doc, k) {
                None => None,
                Some(rp) => {
                    let mut rest = rp.0;
                    let ghost pre = rest@;
                    rest.insert(0, g);
                    proof {
                        assert(groups_view(rest@) =~= seq![gv] + groups_view(pre));
                    }
                    Some((rest, rp.1))
                },
            }
        },
    }
}

/// Parses a whole score document into its groups; nothing when the document
/// is malformed.
pub fn parse_document(doc: &Vec<char>) -> (r: Option<Vec<ScoreGroup>>)
    ensures
        ({
            let s = spec_parse_doc(doc@);
            match (r, s) {
                (Some(v), Some(sv)) => groups_view(v@) == sv,
                (None, None) => true,
                _ => false,
            }
        }),
{
    proof {
        assert(doc.len() == doc@.len());
    }
    let i = skip_ws(doc, 0);
    if !check_lit(doc, i, "<scores>") {
        return None;
    }
    let l = "<scores>".unicode_len();
    match parse_groups(doc, i + l) {
        None => None,
        Some(gp) => {
            let gs = gp.0;
            let j = gp.1;
            if !check_lit(doc, j, "</scores>") {
                return None;
            }
            let l2 = "</scores>".unicode_len();
            let k = skip_ws(doc, j + l2);
            if k != doc.len() {
                return None;
            }
            Some(gs)
        },
    }
}

/// The markup for one character of an attribute value: the five special
/// characters as entities, every other character as itself.
pub open spec fn spec_esc_char(c: char) -> Seq<char> {
    if c == '&' {
        "&amp;"@
    } else if c == '<' {
        "&lt;"@
    } else if c == '>' {
        "&gt;"@
    } else if c == '"' {
        "&quot;"@
    } else if c == '\'' {
        "&apos;"@
    } else {
        seq![c]
    }
}

/// The markup for a whole attribute value.
pub open spec fn spec_escape(s: Seq<char>) -> Seq<char>
    decreases s.len(),
{
    if s.len() == 0 {
        Seq::<char>::empty()
    } else {
        spec_escape(s.drop_last()) + spec_esc_char(s.last())
    }
}

/// The markup of one score entry: a self-closing score tag; the time
/// attribute is written only when the entry carries a time.
pub open spec fn spec_entry_doc(e: EntryView) -> Seq<char> {
    "<score score=\""@ + crate::text::spec_dec(e.0 as nat) + "\" user=\""@ + spec_escape(e.1) + (
    match e.2 {
        Some(t) => "\" time=\""@ + crate::text::spec_dec(t as nat),
        None => Seq::<char>::empty(),
    }) + "\"/>"@
}

/// The markup of a row of score entries, in order.
pub open spec fn spec_entries_doc(es: Seq<EntryView>) -> Seq<char>
    decreases es.len(),
{
    if es.len() == 0 {
        Seq::<char>::empty()
    } else {
        spec_entries_doc(es.drop_last()) + spec_entry_doc(es.last())
    }
}

/// The markup of one score group: a difficulty element named by its
/// attribute, holding its entries.
pub open spec fn spec_group_doc(g: GroupView) -> Seq<char> {
    "<difficulty name=\""@ + spec_escape(g.0) + "\">"@ + spec_entries_doc(g.1) + "</difficulty>"@
}

/// The markup of a row of score groups, in order.
pub open spec fn spec_groups_doc(m: Seq<GroupView>) -> Seq<char>
    decreases m.len(),
{
    if m.len() == 0 {
        Seq::<char>::empty()
    } else {
        spec_groups_doc(m.drop_last()) + spec_group_doc(m.last())
    }
}

/// The whole document a store serializes to.
pub open spec fn spec_doc(m: Seq<GroupView>) -> Seq<char> {
    "<scores>"@ + spec_groups_doc(m) + "</scores>"@
}

/// Appends the escaped form of `s` to `out`.
fn escape_into(out: &mut String, s: &str)
    ensures
        final(out)@ == old(out)@ + spec_escape(s@),
{
    let cs = crate::text::str_chars(s);
    let mut i: usize = 0;
    while i < cs.len()
        invariant
            i <= cs@.len(),
            cs@ == s@,
            out@ == old(out)@ + spec_escape(cs@.take(i as int)),
        decreases cs@.len() - i,
    {
        proof {
            assert(cs@.take(i + 1).drop_last() =~= cs@.take(i as int));
            assert(cs@.take(i + 1).last() == cs@[i as int]);
        }
        let c = cs[i];
        if c == '&' {
            out.append("&amp;");
        } else if c == '<' {
            out.append("&lt;");
        } else if c == '>' {
            out.append("&gt;");
        } else if c == '"' {
            out.append("&quot;");
        } else if c == '\'' {
            out.append("&apos;");
        } else {
            crate::text::push_char(out, c);
            proof {
                assert(out@ =~= old(out)@ + spec_escape(cs@.take(i + 1)));
            }
        }
        i = i + 1;
    }
    proof {
        assert(cs@.take(cs@.len() as int) =~= cs@);
    }
}

/// Appends the markup of one entry to `out`.
fn entry_doc_into(out: &mut String, e: &ScoreEntry)
    ensures
        final(out)@ == old(out)@ + spec_entry_doc(entry_view(*e)),
{
    out.append("<score score=\"");
    let num = crate::text::u64_to_string(e.0);
    out.append(num.as_str());
    out.append("\" user=\"");
    escape_into(out, e.1.as_str());
    match e.2 {
        Some(t) => {
            out.append("\" time=\"");
            let ts = crate::text::u64_to_string(t);
            out.append(ts.as_str());
        },
        None => {},
    }
    out.append("\"/>");
    proof {
        assert(out@ =~= old(out)@ + spec_entry_doc(entry_view(*e)));
    }
}

/// Appends the markup of one group to `out`.
fn group_doc_into(out: &mut String, g: &ScoreGroup)
    ensures
        final(out)@ == old(out)@ + spec_group_doc(g@),
{
    out.append("<difficulty name=\"");
    escape_into(out, g.name.as_str());
    out.append("\">");
    let ghost head = out@;
    let mut i: usize = 0;
    while i < g.entries.len()
        invariant
            i <= g.entries@.len(),
            head == out@.take(head.len() as int) && head.len() <= out@.len(),
            out@ == head + spec_entries_doc(entries_view(g.entries@).take(i as int)),
        decreases g.entries@.len() - i,
    {
        proof {
            assert(entries_view(g.entries@).take(i + 1).drop_last() =~= entries_view(
                g.entries@,
            ).take(i as int));
            assert(entries_view(g.entries@).take(i + 1).last() == entry_view(
                g.entries@[i as int],
            ));
        }
        entry_doc_into(out, &g.entries[i]);
        proof {
            assert(out@ =~= head + spec_entries_doc(entries_view(g.entries@).take(i + 1)));
            assert(head =~= out@.take(head.len() as int));
        }
        i = i + 1;
    }
    proof {
        assert(entries_view(g.entries@).take(g.entries@.len() as int) =~= entries_view(
            g.entries@,
        ));
    }
    out.append("</difficulty>");
    proof {
        assert(out@ =~= old(out)@ + spec_group_doc(g@));
    }
}

/// Serializes the groups of a score store as one document.
pub fn serialize_document(groups: &Vec<ScoreGroup>) -> (r: String)
    ensures
        r@ == spec_doc(groups_view(groups@)),
{
    let mut out = String::new();
    out.append("<scores>");
    let ghost head = out@;
    let mut i: usize = 0;
    while i < groups.len()
        invariant
            i <= groups@.len(),
            head == out@.take(head.len() as int) && head.len() <= out@.len(),
            out@ == head + spec_groups_doc(groups_view(groups@).take(i as int)),
        decreases groups@.len() - i,
    {
        proof {
            assert(groups_view(groups@).take(i + 1).drop_last() =~= groups_view(groups@).take(
                i as int,
            ));
            assert(groups_view(groups@).take(i + 1).last() == groups@[i as int]@);
        }
        group_doc_into(&mut out, &groups[i]);
        proof {
            assert(out@ =~= head + spec_groups_doc(groups_view(groups@).take(i + 1)));
            assert(head =~= out@.take(head.len() as int));
        }
        i = i + 1;
    }
    proof {
        assert(groups_view(groups@).take(groups@.len() as int) =~= groups_view(groups@));
    }
    out.append("</scores>");
    proof {
        assert(out@ =~= spec_doc(groups_view(groups@)));
    }
    out
}

/// A concatenated fragment stands at `i` exactly when its parts stand there
/// in sequence.
proof fn lemma_has_lit_concat(s: Seq<char>, i: int, a: Seq<char>, b: Seq<char>)
    requires
        spec_has_lit(s, i, a + b),
    ensures
        spec_has_lit(s, i, a),
        spec_has_lit(s, i + a.len(), b),
        forall|k: int| 0 <= k < a.len() ==> s[i + k] == a[k],
        forall|k: int| 0 <= k < b.len() ==> s[i + a.len() + k] == b[k],
{
    assert forall|k: int| 0 <= k < (a + b).len() implies s[i + k] == (a + b)[k] by {
        assert(s.subrange(i, i + (a + b).len())[k] == (a + b)[k]);
    }
    assert(s.subrange(i, i + a.len()) =~= a);
    assert forall|k: int| 0 <= k < b.len() implies s[i + a.len() + k] == b[k] by {
        assert(s[i + (a.len() + k)] == (a + b)[a.len() + k]);
    }
    assert(s.subrange(i + a.len(), i + a.len() + b.len()) =~= b);
}

/// Escaping distributes over concatenation.
proof fn lemma_escape_concat(a: Seq<char>, b: Seq<char>)
    ensures
        spec_escape(a + b) == spec_escape(a) + spec_escape(b),
    decreases b.len(),
{
    if b.len() == 0 {
        assert(a + b =~= a);
        assert(spec_escape(a) + spec_escape(b) =~= spec_escape(a));
    } else {
        lemma_escape_concat(a, b.drop_last());
        assert((a + b).drop_last() =~= a + b.drop_last());
        assert((a + b).last() == b.last());
        assert(spec_escape(a) + spec_escape(b) =~= spec_escape(a) + spec_escape(b.drop_last())
            + spec_esc_char(b.last()));
    }
}

/// Escaping a string without special characters changes nothing.
proof fn lemma_escape_identity(w: Seq<char>)
    requires
        forall|k: int|
            0 <= k < w.len() ==> !(w[k] == '&' || w[k] == '<' || w[k] == '>' || w[k] == '"'
                || w[k] == '\''),
    ensures
        spec_escape(w) == w,
    decreases w.len(),
{
    if w.len() > 0 {
        lemma_escape_identity(w.drop_last());
        assert(spec_esc_char(w.last()) == seq![w.last()]);
        assert(spec_escape(w) =~= w);
    } else {
        assert(spec_escape(w) =~= w);
    }
}

/// The decimal rendering of a number needs no escaping: digits are not
/// special.
proof fn lemma_escape_dec(n: nat)
    ensures
        spec_escape(crate::text::spec_dec(n)) == crate::text::spec_dec(n),
{
    crate::text::lemma_dec_round_trip(n);
    assert forall|k: int|
        0 <= k < crate::text::spec_dec(n).len() implies !(crate::text::spec_dec(n)[k] == '&'
        || crate::text::spec_dec(n)[k] == '<' || crate::text::spec_dec(n)[k] == '>'
        || crate::text::spec_dec(n)[k] == '"' || crate::text::spec_dec(n)[k] == '\'') by {
        assert(crate::text::spec_digit_val(crate::text::spec_dec(n)[k]) < 10);
    }
    lemma_escape_identity(crate::text::spec_dec(n));
}

/// The markup of a row of entries decomposes at its head.
proof fn lemma_entries_doc_concat(a: Seq<EntryView>, b: Seq<EntryView>)
    ensures
        spec_entries_doc(a + b) == spec_entries_doc(a) + spec_entries_doc(b),
    decreases b.len(),
{
    if b.len() == 0 {
        assert(a + b =~= a);
        assert(spec_entries_doc(a) + spec_entries_doc(b) =~= spec_entries_doc(a));
    } else {
        lemma_entries_doc_concat(a, b.drop_last());
        assert((a + b).drop_last() =~= a + b.drop_last());
        assert((a + b).last() == b.last());
        assert(spec_entries_doc(a) + spec_entries_doc(b) =~= spec_entries_doc(a)
            + spec_entries_doc(b.drop_last()) + spec_entry_doc(b.last()));
    }
}

/// The markup of a row of groups decomposes at its head.
proof fn lemma_groups_doc_concat(a: Seq<GroupView>, b: Seq<GroupView>)
    ensures
        spec_groups_doc(a + b) == spec_groups_doc(a) + spec_groups_doc(b),
    decreases b.len(),
{
    if b.len() == 0 {
        assert(a + b =~= a);
        assert(spec_groups_doc(a) + spec_groups_doc(b) =~= spec_groups_doc(a));
    } else {
        lemma_groups_doc_concat(a, b.drop_last());
        assert((a + b).drop_last() =~= a + b.drop_last());
        assert((a + b).last() == b.last());
        assert(spec_groups_doc(a) + spec_groups_doc(b) =~= spec_groups_doc(a)
            + spec_groups_doc(b.drop_last()) + spec_group_doc(b.last()));
    }
}

/// Reading an escaped value back: where the markup of `v` stands, followed
/// by its closing quote, the value parser yields exactly `v`.
proof fn lemma_parse_value_of_escape(s: Seq<char>, i: int, v: Seq<char>)
    requires
        spec_has_lit(s, i, spec_escape(v)),
        i + spec_escape(v).len() < s.len(),
        s[i + spec_escape(v).len()] == '"',
    ensures
        spec_parse_value(s, i) == Some((v, i + spec_escape(v).len())),
    decreases v.len(),
{
    reveal_strlit("&amp;");
    reveal_strlit("&lt;");
    reveal_strlit("&gt;");
    reveal_strlit("&quot;");
    reveal_strlit("&apos;");
    if v.len() == 0 {
        assert(spec_escape(v).len() == 0);
        assert(s[i] == '"');
    } else {
        let c = v[0];
        let rest = v.drop_first();
        assert(seq![c] + rest =~= v);
        lemma_escape_concat(seq![c], rest);
        assert(seq![c].drop_last() =~= Seq::<char>::empty());
        assert(spec_escape(Seq::<char>::empty()) =~= Seq::<char>::empty());
        assert(spec_escape(seq![c]) =~= spec_esc_char(c));
        assert(spec_escape(v) == spec_esc_char(c) + spec_escape(rest));
        lemma_has_lit_concat(s, i, spec_esc_char(c), spec_escape(rest));
        let j = i + spec_esc_char(c).len();
        lemma_parse_value_of_escape(s, j, rest);
        if c == '&' || c == '<' || c == '>' || c == '"' || c == '\'' {
            // an entity stands at `i`; only its own spelling matches, so the
            // parser reads back exactly `c`
            let esc = spec_esc_char(c);
            assert forall|k: int| 0 <= k < esc.len() implies s[i + k] == esc[k] by {
                assert(s.subrange(i, i + esc.len())[k] == s[i + k]);
            }
            assert(s[i + 0] == esc[0]);
            assert(s[i] == esc[0]);
            assert(s[i] == '&');
            if c == '&' {
                assert(spec_has_lit(s, i, "&amp;"@));
            } else if c == '<' {
                assert(esc[1] == 'l');
                assert(s[i + 1] == esc[1]);
                if spec_has_lit(s, i, "&amp;"@) {
                    assert(s.subrange(i, i + "&amp;"@.len())[1] == s[i + 1]);
                    assert(false);
                }
                assert(spec_has_lit(s, i, "&lt;"@));
            } else if c == '>' {
                assert(esc[1] == 'g');
                assert(s[i + 1] == esc[1]);
                if spec_has_lit(s, i, "&amp;"@) {
                    assert(s.subrange(i, i + "&amp;"@.len())[1] == s[i + 1]);
                    assert(false);
                }
                if spec_has_lit(s, i, "&lt;"@) {
                    assert(s.subrange(i, i + "&lt;"@.len())[1] == s[i + 1]);
                    assert(false);
                }
                assert(spec_has_lit(s, i, "&gt;"@));
            } else if c == '"' {
                assert(esc[1] == 'q');
                assert(s[i + 1] == esc[1]);
                if spec_has_lit(s, i, "&amp;"@) {
                    assert(s.subrange(i, i + "&amp;"@.len())[1] == s[i + 1]);
                    assert(false);
                }
                if spec_has_lit(s, i, "&lt;"@) {
                    assert(s.subrange(i, i + "&lt;"@.len())[1] == s[i + 1]);
                    assert(false);
                }
                if spec_has_lit(s, i, "&gt;"@) {
                    assert(s.subrange(i, i + "&gt;"@.len())[1] == s[i + 1]);
                    assert(false);
                }
                assert(spec_has_lit(s, i, "&quot;"@));
            } else {
                assert(esc[1] == 'a');
                assert(s[i + 1] == esc[1]);
                assert(esc[2] == 'p');
                assert(s[i + 2] == esc[2]);
                if spec_has_lit(s, i, "&amp;"@) {
                    assert(s.subrange(i, i + "&amp;"@.len())[2] == s[i + 2]);
                    assert(false);
                }
                if spec_has_lit(s, i, "&lt;"@) {
                    assert(s.subrange(i, i + "&lt;"@.len())[1] == s[i + 1]);
                    assert(false);
                }
                if spec_has_lit(s, i, "&gt;"@) {
                    assert(s.subrange(i, i + "&gt;"@.len())[1] == s[i + 1]);
                    assert(false);
                }
                if spec_has_lit(s, i, "&quot;"@) {
                    assert(s.subrange(i, i + "&quot;"@.len())[2] == s[i + 2]);
                    assert(false);
                }
                assert(spec_has_lit(s, i, "&apos;"@));
            }
            assert(spec_parse_value(s, i) == Some((seq![c] + rest, i + spec_escape(v).len())));
        } else {
            assert(spec_esc_char(c) == seq![c]);
            assert(s[i] == c);
            assert(spec_parse_value(s, i) == Some((seq![c] + rest, i + spec_escape(v).len())));
        }
    }
}

/// Reading a run of name characters back: where `w` stands, followed by a
/// character outside the name alphabet, the name parser yields exactly `w`.
proof fn lemma_parse_name_of_lit(s: Seq<char>, i: int, w: Seq<char>)
    requires
        spec_has_lit(s, i, w),
        forall|k: int| 0 <= k < w.len() ==> spec_is_name_char(#[trigger] w[k]),
        i + w.len() < s.len(),
        !spec_is_name_char(s[i + w.len()]),
    ensures
        spec_parse_name(s, i) == (w, i + w.len()),
    decreases w.len(),
{
    if w.len() == 0 {
        assert(!spec_is_name_char(s[i]));
    } else {
        assert(seq![w[0]] + w.drop_first() =~= w);
        lemma_has_lit_concat(s, i, seq![w[0]], w.drop_first());
        assert(s[i] == w[0]);
        lemma_parse_name_of_lit(s, i + 1, w.drop_first());
        assert(spec_parse_name(s, i) == (seq![s[i]] + w.drop_first(), i + w.len()));
    }
}

/// At a tag-closing character the attribute list ends empty.
proof fn lemma_parse_attrs_end(s: Seq<char>, i: int)
    requires
        0 <= i < s.len(),
        !spec_is_ws(s[i]),
        !spec_is_name_char(s[i]),
    ensures
        spec_parse_attrs(s, i) == Some((Seq::<AttrView>::empty(), i)),
{
    assert(spec_skip_ws(s, i) == i);
}

/// One `key="value"` pair, led by a single blank, prepends its attribute to
/// whatever the rest of the tag parses to.
proof fn lemma_parse_attrs_step(
    s: Seq<char>,
    i: int,
    key: Seq<char>,
    v: Seq<char>,
    rest_attrs: Seq<AttrView>,
    end: int,
)
    requires
        key.len() > 0,
        forall|k: int| 0 <= k < key.len() ==> spec_is_name_char(#[trigger] key[k]),
        spec_has_lit(s, i, seq![' '] + key + seq!['=', '"'] + spec_escape(v) + seq!['"']),
        spec_parse_attrs(
            s,
            i + (seq![' '] + key + seq!['=', '"'] + spec_escape(v) + seq!['"']).len(),
        ) == Some((rest_attrs, end)),
    ensures
        spec_parse_attrs(s, i) == Some((seq![(key, v)] + rest_attrs, end)),
{
    let frag = seq![' '] + key + seq!['=', '"'] + spec_escape(v) + seq!['"'];
    let after = i + frag.len();
    // split the fragment into its five pieces
    lemma_has_lit_concat(s, i, seq![' '] + key + seq!['=', '"'] + spec_escape(v), seq!['"']);
    lemma_has_lit_concat(s, i, seq![' '] + key + seq!['=', '"'], spec_escape(v));
    lemma_has_lit_concat(s, i, seq![' '] + key, seq!['=', '"']);
    lemma_has_lit_concat(s, i, seq![' '], key);
    assert(s[i + 0] == (seq![' '])[0]);
    assert(s[i] == ' ');
    let kpos = i + 1;
    assert(s[kpos + 0] == key[0]);
    assert(spec_is_name_char(key[0]));
    assert(!spec_is_ws(s[kpos]));
    assert(spec_skip_ws(s, i) == spec_skip_ws(s, kpos));
    assert(spec_skip_ws(s, kpos) == kpos);
    let eq_pos = kpos + key.len();
    assert(s[eq_pos + 0] == (seq!['=', '"'])[0]);
    assert(s[eq_pos + 1] == (seq!['=', '"'])[1]);
    assert(s[eq_pos] == '=');
    assert(!spec_is_name_char('='));
    lemma_parse_name_of_lit(s, kpos, key);
    let vpos = eq_pos + 2;
    let qpos = vpos + spec_escape(v).len();
    assert(s[qpos + 0] == (seq!['"'])[0]);
    assert(s[qpos] == '"');
    lemma_parse_value_of_escape(s, vpos, v);
    assert(qpos + 1 == after);
    assert(spec_parse_attrs(s, i) == Some((seq![(key, v)] + rest_attrs, end)));
}

/// The keys written by the serializer are made of name characters.
proof fn lemma_keys_are_name_chars()
    ensures
        forall|k: int| 0 <= k < "name"@.len() ==> spec_is_name_char(#[trigger] "name"@[k]),
        forall|k: int| 0 <= k < "score"@.len() ==> spec_is_name_char(#[trigger] "score"@[k]),
        forall|k: int| 0 <= k < "user"@.len() ==> spec_is_name_char(#[trigger] "user"@[k]),
        forall|k: int| 0 <= k < "time"@.len() ==> spec_is_name_char(#[trigger] "time"@[k]),
{
    reveal_strlit("name");
    reveal_strlit("score");
    reveal_strlit("user");
    reveal_strlit("time");
}

/// Reading one serialized score tag back yields exactly its entry.
#[verifier::rlimit(60)]
proof fn lemma_parse_entry_of_doc(s: Seq<char>, i: int, e: EntryView)
    requires
        spec_has_lit(s, i, spec_entry_doc(e)),
    ensures
        spec_parse_entry(s, i) == Some((Some(e), i + spec_entry_doc(e).len())),
{
    reveal_strlit("<score");
    reveal_strlit(" score=\"");
    reveal_strlit("\" user=\"");
    reveal_strlit("\" time=\"");
    reveal_strlit("\"/>");
    reveal_strlit("/>");
    reveal_strlit("score");
    reveal_strlit("user");
    reveal_strlit("time");
    lemma_keys_are_name_chars();
    let d0 = crate::text::spec_dec(e.0 as nat);
    let u = spec_escape(e.1);
    lemma_escape_dec(e.0 as nat);
    crate::text::lemma_dec_round_trip(e.0 as nat);
    reveal_strlit("<score score=\"");
    assert("<score score=\""@ =~= "<score"@ + (seq![' '] + "score"@ + seq!['=', '"']));
    assert("\" user=\""@ =~= seq!['"'] + (seq![' '] + "user"@ + seq!['=', '"']));
    assert("\" time=\""@ =~= seq!['"'] + (seq![' '] + "time"@ + seq!['=', '"']));
    assert("\"/>"@ =~= seq!['"'] + "/>"@);
    let a1 = seq![' '] + "score"@ + seq!['=', '"'] + d0 + seq!['"'];
    let a2 = seq![' '] + "user"@ + seq!['=', '"'] + u + seq!['"'];
    let p1 = i + "<score"@.len();
    let p2 = p1 + a1.len();
    let p3 = p2 + a2.len();
    match e.2 {
        None => {
            assert(spec_entry_doc(e) =~= "<score"@ + a1 + a2 + "/>"@);
            assert("<score"@ + (a1 + a2 + "/>"@) =~= spec_entry_doc(e));
            lemma_has_lit_concat(s, i, "<score"@, a1 + a2 + "/>"@);
            assert(a1 + (a2 + "/>"@) =~= a1 + a2 + "/>"@);
            lemma_has_lit_concat(s, p1, a1, a2 + "/>"@);
            lemma_has_lit_concat(s, p2, a2, "/>"@);
            assert(s[p3 + 0] == "/>"@[0]);
            assert(s[p3] == '/');
            lemma_parse_attrs_end(s, p3);
            lemma_parse_attrs_step(s, p2, "user"@, e.1, Seq::<AttrView>::empty(), p3);
            lemma_parse_attrs_step(s, p1, "score"@, d0, seq![("user"@, e.1)] + Seq::<
                AttrView,
            >::empty(), p3);
            let attrs = seq![("score"@, d0), ("user"@, e.1)];
            assert(seq![("score"@, d0)] + (seq![("user"@, e.1)] + Seq::<AttrView>::empty())
                =~= attrs);
            assert(spec_parse_attrs(s, p1) == Some((attrs, p3)));
            // the scan reads the score and user back
            assert(attrs.drop_last() =~= seq![("score"@, d0)]);
            assert(seq![("score"@, d0)].drop_last() =~= Seq::<AttrView>::empty());
            assert(spec_scan_attrs(Seq::<AttrView>::empty()) == Some(
                (None::<u64>, None::<Seq<char>>, None::<u64>),
            ));
            assert("user"@.len() != "score"@.len());
            assert(spec_scan_attrs(seq![("score"@, d0)]) == Some(
                (Some(e.0), None::<Seq<char>>, None::<u64>),
            ));
            assert(attrs.last() == ("user"@, e.1));
            assert(spec_scan_attrs(attrs) == Some((Some(e.0), Some(e.1), None::<u64>)));
            assert(spec_has_lit(s, p3, "/>"@));
            assert(e == (e.0, e.1, e.2));
            assert(spec_parse_entry(s, i) == Some((Some(e), p3 + "/>"@.len())));
            assert(p3 + "/>"@.len() == i + spec_entry_doc(e).len());
        },
        Some(t) => {
            let d1 = crate::text::spec_dec(t as nat);
            lemma_escape_dec(t as nat);
            crate::text::lemma_dec_round_trip(t as nat);
            let a3 = seq![' '] + "time"@ + seq!['=', '"'] + d1 + seq!['"'];
            let p4 = p3 + a3.len();
            assert(spec_entry_doc(e) =~= "<score"@ + a1 + a2 + a3 + "/>"@);
            assert("<score"@ + (a1 + a2 + a3 + "/>"@) =~= spec_entry_doc(e));
            lemma_has_lit_concat(s, i, "<score"@, a1 + a2 + a3 + "/>"@);
            assert(a1 + (a2 + a3 + "/>"@) =~= a1 + a2 + a3 + "/>"@);
            lemma_has_lit_concat(s, p1, a1, a2 + a3 + "/>"@);
            assert(a2 + (a3 + "/>"@) =~= a2 + a3 + "/>"@);
            lemma_has_lit_concat(s, p2, a2, a3 + "/>"@);
            lemma_has_lit_concat(s, p3, a3, "/>"@);
            assert(s[p4 + 0] == "/>"@[0]);
            assert(s[p4] == '/');
            lemma_parse_attrs_end(s, p4);
            lemma_parse_attrs_step(s, p3, "time"@, d1, Seq::<AttrView>::empty(), p4);
            lemma_parse_attrs_step(s, p2, "user"@, e.1, seq![("time"@, d1)] + Seq::<
                AttrView,
            >::empty(), p4);
            lemma_parse_attrs_step(s, p1, "score"@, d0, seq![("user"@, e.1)] + (seq![
                ("time"@, d1),
            ] + Seq::<AttrView>::empty()), p4);
            let attrs = seq![("score"@, d0), ("user"@, e.1), ("time"@, d1)];
            assert(seq![("score"@, d0)] + (seq![("user"@, e.1)] + (seq![("time"@, d1)] + Seq::<
                AttrView,
            >::empty())) =~= attrs);
            assert(spec_parse_attrs(s, p1) == Some((attrs, p4)));
            assert(attrs.drop_last() =~= seq![("score"@, d0), ("user"@, e.1)]);
            assert(seq![("score"@, d0), ("user"@, e.1)].drop_last() =~= seq![("score"@, d0)]);
            assert(seq![("score"@, d0)].drop_last() =~= Seq::<AttrView>::empty());
            assert(spec_scan_attrs(Seq::<AttrView>::empty()) == Some(
                (None::<u64>, None::<Seq<char>>, None::<u64>),
            ));
            assert("user"@.len() != "score"@.len());
            assert("time"@[0] != "score"@[0]);
            assert("time"@[0] != "user"@[0]);
            assert("time"@ != "score"@ && "time"@ != "user"@);
            assert(spec_scan_attrs(seq![("score"@, d0)]) == Some(
                (Some(e.0), None::<Seq<char>>, None::<u64>),
            ));
            assert(seq![("score"@, d0), ("user"@, e.1)].last() == ("user"@, e.1));
            assert(spec_scan_attrs(seq![("score"@, d0), ("user"@, e.1)]) == Some(
                (Some(e.0), Some(e.1), None::<u64>),
            ));
            assert(attrs.last() == ("time"@, d1));
            assert(spec_scan_attrs(attrs) == Some((Some(e.0), Some(e.1), Some(t))));
            assert(spec_has_lit(s, p4, "/>"@));
            assert(e == (e.0, e.1, e.2));
            assert(spec_parse_entry(s, i) == Some((Some(e), p4 + "/>"@.len())));
            assert(p4 + "/>"@.len() == i + spec_entry_doc(e).len());
        },
    }
}

/// Reading a serialized row of score tags back, up to the closing tag that
/// follows them, yields exactly the row.
proof fn lemma_parse_entries_of_doc(s: Seq<char>, i: int, es: Seq<EntryView>)
    requires
        spec_has_lit(s, i, spec_entries_doc(es)),
        spec_has_lit(s, i + spec_entries_doc(es).len(), "</"@),
    ensures
        spec_parse_entries(s, i) == Some((es, i + spec_entries_doc(es).len())),
    decreases es.len(),
{
    reveal_strlit("</");
    reveal_strlit("<score score=\"");
    reveal_strlit("<score");
    if es.len() == 0 {
        assert(spec_entries_doc(es).len() == 0);
        assert(s.subrange(i, i + "</"@.len())[0] == s[i + 0]);
        assert(s[i] == '<');
        assert(!spec_is_ws(s[i]));
        assert(spec_skip_ws(s, i) == i);
    } else {
        let e0 = es[0];
        let rest = es.drop_first();
        assert(seq![e0] + rest =~= es);
        lemma_entries_doc_concat(seq![e0], rest);
        assert(seq![e0].drop_last() =~= Seq::<EntryView>::empty());
        assert(spec_entries_doc(Seq::<EntryView>::empty()) == Seq::<char>::empty());
        assert(spec_entries_doc(seq![e0]) =~= spec_entry_doc(e0));
        assert(spec_entries_doc(es) == spec_entry_doc(e0) + spec_entries_doc(rest));
        lemma_has_lit_concat(s, i, spec_entry_doc(e0), spec_entries_doc(rest));
        // the tag head shows the loop has not reached a closing tag
        assert(spec_entry_doc(e0) =~= "<score score=\""@ + (crate::text::spec_dec(e0.0 as nat)
            + ("\" user=\""@ + (spec_escape(e0.1) + ((match e0.2 {
            Some(t) => "\" time=\""@ + crate::text::spec_dec(t as nat),
            None => Seq::<char>::empty(),
        }) + "\"/>"@)))));
        assert(spec_entry_doc(e0)[0] == "<score score=\""@[0]);
        assert(spec_entry_doc(e0)[1] == "<score score=\""@[1]);
        assert(s[i + 0] == spec_entry_doc(e0)[0]);
        assert(s[i + 1] == spec_entry_doc(e0)[1]);
        assert(s[i] == '<');
        assert(s[i + 1] == 's');
        assert(!spec_is_ws(s[i]));
        assert(spec_skip_ws(s, i) == i);
        if spec_has_lit(s, i, "</"@) {
            assert(s.subrange(i, i + "</"@.len())[1] == s[i + 1]);
            assert(false);
        }
        lemma_parse_entry_of_doc(s, i, e0);
        let k = i + spec_entry_doc(e0).len();
        lemma_parse_entries_of_doc(s, k, rest);
        assert(spec_parse_entries(s, i) == Some(
            (seq![e0] + rest, k + spec_entries_doc(rest).len()),
        ));
    }
}

/// Reading one serialized difficulty element back yields exactly its group.
#[verifier::rlimit(60)]
proof fn lemma_parse_group_of_doc(s: Seq<char>, i: int, g: GroupView)
    requires
        spec_has_lit(s, i, spec_group_doc(g)),
    ensures
        spec_parse_group(s, i) == Some((g, i + spec_group_doc(g).len())),
{
    reveal_strlit("<difficulty name=\"");
    reveal_strlit("<difficulty");
    reveal_strlit("name");
    reveal_strlit("\">");
    reveal_strlit("</difficulty>");
    reveal_strlit("</");
    reveal_strlit("difficulty>");
    lemma_keys_are_name_chars();
    let nm = spec_escape(g.0);
    let a1 = seq![' '] + "name"@ + seq!['=', '"'] + nm + seq!['"'];
    assert("<difficulty name=\""@ =~= "<difficulty"@ + (seq![' '] + "name"@ + seq!['=', '"']));
    assert("\">"@ =~= seq!['"'] + seq!['>']);
    assert(spec_group_doc(g) =~= "<difficulty"@ + a1 + seq!['>'] + spec_entries_doc(g.1)
        + "</difficulty>"@);
    assert("<difficulty"@ + (a1 + (seq!['>'] + (spec_entries_doc(g.1) + "</difficulty>"@)))
        =~= spec_group_doc(g));
    lemma_has_lit_concat(
        s,
        i,
        "<difficulty"@,
        a1 + (seq!['>'] + (spec_entries_doc(g.1) + "</difficulty>"@)),
    );
    let p1 = i + "<difficulty"@.len();
    lemma_has_lit_concat(s, p1, a1, seq!['>'] + (spec_entries_doc(g.1) + "</difficulty>"@));
    let p2 = p1 + a1.len();
    lemma_has_lit_concat(s, p2, seq!['>'], spec_entries_doc(g.1) + "</difficulty>"@);
    let p3 = p2 + 1;
    lemma_has_lit_concat(s, p3, spec_entries_doc(g.1), "</difficulty>"@);
    let m = p3 + spec_entries_doc(g.1).len();
    assert(s[p2 + 0] == (seq!['>'])[0]);
    assert(s[p2] == '>');
    lemma_parse_attrs_end(s, p2);
    lemma_parse_attrs_step(s, p1, "name"@, g.0, Seq::<AttrView>::empty(), p2);
    let attrs = seq![("name"@, g.0)] + Seq::<AttrView>::empty();
    assert(attrs =~= seq![("name"@, g.0)]);
    assert(attrs.first() == ("name"@, g.0));
    assert(spec_attr_name(attrs) == Some(g.0));
    assert("</difficulty>"@ =~= "</"@ + "difficulty>"@);
    lemma_has_lit_concat(s, m, "</"@, "difficulty>"@);
    lemma_parse_entries_of_doc(s, p3, g.1);
    assert(spec_has_lit(s, m, "</difficulty>"@));
    assert(g == (g.0, g.1));
    assert(spec_parse_group(s, i) == Some((g, m + "</difficulty>"@.len())));
    assert(m + "</difficulty>"@.len() == i + spec_group_doc(g).len());
}

/// Reading a serialized row of difficulty elements back, up to the closing
/// tag that follows them, yields exactly the row.
proof fn lemma_parse_groups_of_doc(s: Seq<char>, i: int, m: Seq<GroupView>)
    requires
        spec_has_lit(s, i, spec_groups_doc(m)),
        spec_has_lit(s, i + spec_groups_doc(m).len(), "</"@),
    ensures
        spec_parse_groups(s, i) == Some((m, i + spec_groups_doc(m).len())),
    decreases m.len(),
{
    reveal_strlit("</");
    reveal_strlit("<difficulty name=\"");
    reveal_strlit("<difficulty");
    if m.len() == 0 {
        assert(spec_groups_doc(m).len() == 0);
        assert(s.subrange(i, i + "</"@.len())[0] == s[i + 0]);
        assert(s[i] == '<');
        assert(!spec_is_ws(s[i]));
        assert(spec_skip_ws(s, i) == i);
    } else {
        let g0 = m[0];
        let rest = m.drop_first();
        assert(seq![g0] + rest =~= m);
        lemma_groups_doc_concat(seq![g0], rest);
        assert(seq![g0].drop_last() =~= Seq::<GroupView>::empty());
        assert(spec_groups_doc(Seq::<GroupView>::empty()) == Seq::<char>::empty());
        assert(spec_groups_doc(seq![g0]) =~= spec_group_doc(g0));
        assert(spec_groups_doc(m) == spec_group_doc(g0) + spec_groups_doc(rest));
        lemma_has_lit_concat(s, i, spec_group_doc(g0), spec_groups_doc(rest));
        assert(spec_group_doc(g0) =~= "<difficulty name=\""@ + (spec_escape(g0.0) + ("\">"@ + (
        spec_entries_doc(g0.1) + "</difficulty>"@))));
        assert(spec_group_doc(g0)[0] == "<difficulty name=\""@[0]);
        assert(spec_group_doc(g0)[1] == "<difficulty name=\""@[1]);
        assert(s[i + 0] == spec_group_doc(g0)[0]);
        assert(s[i + 1] == spec_group_doc(g0)[1]);
        assert(s[i] == '<');
        assert(s[i + 1] == 'd');
        assert(!spec_is_ws(s[i]));
        assert(spec_skip_ws(s, i) == i);
        if spec_has_lit(s, i, "</"@) {
            assert(s.subrange(i, i + "</"@.len())[1] == s[i + 1]);
            assert(false);
        }
        lemma_parse_group_of_doc(s, i, g0);
        let k = i + spec_group_doc(g0).len();
        lemma_parse_groups_of_doc(s, k, rest);
        assert(spec_parse_groups(s, i) == Some(
            (seq![g0] + rest, k + spec_groups_doc(rest).len()),
        ));
    }
}

/// The persistence round trip: parsing the document a store serializes to
/// yields the store back, groups, entries and all, for every store.
#[verifier::rlimit(60)]
pub proof fn lemma_document_round_trip(m: Seq<GroupView>)
    ensures
        spec_parse_doc(spec_doc(m)) == Some(m),
{
    reveal_strlit("<scores>");
    reveal_strlit("</scores>");
    reveal_strlit("</");
    reveal_strlit("scores>");
    let s = spec_doc(m);
    assert(s.subrange(0, s.len() as int) =~= s);
    assert(spec_has_lit(s, 0, s));
    assert("<scores>"@ + (spec_groups_doc(m) + "</scores>"@) =~= s);
    lemma_has_lit_concat(s, 0, "<scores>"@, spec_groups_doc(m) + "</scores>"@);
    let p1 = "<scores>"@.len() as int;
    lemma_has_lit_concat(s, p1, spec_groups_doc(m), "</scores>"@);
    let j = p1 + spec_groups_doc(m).len();
    assert("</scores>"@ =~= "</"@ + "scores>"@);
    lemma_has_lit_concat(s, j, "</"@, "scores>"@);
    assert(s[0int + 0] == "<scores>"@[0]);
    assert(s[0int] == "<scores>"@[0]);
    assert(s[0int] == '<');
    assert(!spec_is_ws(s[0int]));
    assert(spec_skip_ws(s, 0) == 0);
    lemma_parse_groups_of_doc(s, p1, m);
    assert(spec_has_lit(s, j, "</scores>"@));
    assert(j + "</scores>"@.len() == s.len());
    assert(spec_skip_ws(s, s.len() as int) == s.len());
    assert(spec_parse_doc(s) == Some(m));
}

} // verus!
