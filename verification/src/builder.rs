//! Turning a field set into a single query string, and parsing a query
//! string back into fields.

use vstd::prelude::*;
use crate::fields::{DorkData, FieldsView};

verus! {

/// The characters treated as whitespace when splitting and trimming: the
/// Unicode `White_Space` set.
pub open spec fn is_wspace(c: char) -> bool {
    let u = c as int;
    (9 <= u && u <= 13) || u == 32 || u == 0x85 || u == 0xA0 || u == 0x1680
        || (0x2000 <= u && u <= 0x200A) || u == 0x2028 || u == 0x2029 || u == 0x202F
        || u == 0x205F || u == 0x3000
}

/// Executable test for [`is_wspace`].
pub fn is_whitespace_char(c: char) -> (r: bool)
    ensures
        r == is_wspace(c),
{
    let u = c as u32;
    (9 <= u && u <= 13) || u == 32 || u == 0x85 || u == 0xA0 || u == 0x1680
        || (0x2000 <= u && u <= 0x200A) || u == 0x2028 || u == 0x2029 || u == 0x202F
        || u == 0x205F || u == 0x3000
}

/// `s` with leading whitespace removed.
pub open spec fn trim_front(s: Seq<char>) -> Seq<char>
    decreases s.len(),
{
    if s.len() > 0 && is_wspace(s[0]) {
        trim_front(s.drop_first())
    } else {
        s
    }
}

/// `s` with trailing whitespace removed.
pub open spec fn trim_back(s: Seq<char>) -> Seq<char>
    decreases s.len(),
{
    if s.len() > 0 && is_wspace(s.last()) {
        trim_back(s.drop_last())
    } else {
        s
    }
}

/// `s` with leading and trailing whitespace removed.
pub open spec fn trim_seq(s: Seq<char>) -> Seq<char> {
    trim_back(trim_front(s))
}

proof fn lemma_trim_front_skip(s: Seq<char>, i: int)
    requires
        0 <= i <= s.len(),
        forall|k: int| 0 <= k < i ==> is_wspace(s[k]),
    ensures
        trim_front(s) == trim_front(s.skip(i)),
    decreases i,
{
    if i > 0 {
        assert(s.drop_first() =~= s.skip(1));
        lemma_trim_front_skip(s.skip(1), i - 1);
        assert(s.skip(1).skip(i - 1) =~= s.skip(i));
    } else {
        assert(s.skip(0) =~= s);
    }
}

proof fn lemma_trim_back_take(s: Seq<char>, j: int)
    requires
        0 <= j <= s.len(),
        forall|k: int| j <= k < s.len() ==> is_wspace(s[k]),
    ensures
        trim_back(s) == trim_back(s.take(j)),
    decreases s.len() - j,
{
    if j < s.len() {
        assert(is_wspace(s.last()));
        lemma_trim_back_take(s.drop_last(), j);
        assert(s.drop_last().take(j) =~= s.take(j));
    } else {
        assert(s.take(j) =~= s);
    }
}

/// The trimmed copy of a string: leading and trailing whitespace removed.
pub fn trimmed(s: &str) -> (r: String)
    ensures
        r@ == trim_seq(s@),
{
    let n = s.unicode_len();
    let mut lo: usize = 0;
    while lo < n && is_whitespace_char(s.get_char(lo))
        invariant
            n == s@.len(),
            lo <= n,
            forall|k: int| 0 <= k < lo ==> is_wspace(s@[k]),
        decreases n - lo,
    {
        lo += 1;
    }
    proof {
        lemma_trim_front_skip(s@, lo as int);
    }
    if lo == n {
        proof {
            assert(s@.skip(lo as int) =~= Seq::<char>::empty());
        }
        return String::new();
    }
    // s@[lo] is not whitespace, so trim_front(s@) == s@.skip(lo).
    let mut hi: usize = n;
    while is_whitespace_char(s.get_char(hi - 1))
        invariant
            n == s@.len(),
            lo < hi <= n,
            !is_wspace(s@[lo as int]),
            forall|k: int| hi <= k < n ==> is_wspace(s@[k]),
        decreases hi,
    {
        hi -= 1;
    }
    let out = s.substring_char(lo, hi);
    proof {
        let t = s@.skip(lo as int);
        assert(trim_front(s@) == t);
        lemma_trim_back_take(t, hi - lo as int);
        assert(t.take(hi - lo as int) =~= s@.subrange(lo as int, hi as int));
        assert(!is_wspace(s@.subrange(lo as int, hi as int).last()));
    }
    out.to_owned()
}

/// The separator placed between generated segments: a single space when the
/// trimmed operator is empty, else the trimmed operator padded by one space
/// on each side.
pub open spec fn separator(op: Seq<char>) -> Seq<char> {
    if trim_seq(op).len() == 0 {
        " "@
    } else {
        " "@ + trim_seq(op) + " "@
    }
}

/// The emitted segments, in the fixed field order site, inurl, intitle,
/// filetype, intext: empty fields are omitted, and the inurl, intitle and
/// intext values are wrapped in double quotes.
pub open spec fn segment_list(f: FieldsView) -> Seq<Seq<char>> {
    let site = if f.site.len() > 0 {
        seq!["site:"@ + f.site]
    } else {
        Seq::<Seq<char>>::empty()
    };
    let inurl = if f.inurl.len() > 0 {
        seq!["inurl:\""@ + f.inurl + "\""@]
    } else {
        Seq::<Seq<char>>::empty()
    };
    let intitle = if f.intitle.len() > 0 {
        seq!["intitle:\""@ + f.intitle + "\""@]
    } else {
        Seq::<Seq<char>>::empty()
    };
    let filetype = if f.filetype.len() > 0 {
        seq!["filetype:"@ + f.filetype]
    } else {
        Seq::<Seq<char>>::empty()
    };
    let intext = if f.intext.len() > 0 {
        seq!["intext:\""@ + f.intext + "\""@]
    } else {
        Seq::<Seq<char>>::empty()
    };
    site + inurl + intitle + filetype + intext
}

/// `parts` joined with `sep` between consecutive elements; empty when
/// `parts` is empty.
pub open spec fn join_with(parts: Seq<Seq<char>>, sep: Seq<char>) -> Seq<char>
    decreases parts.len(),
{
    if parts.len() == 0 {
        Seq::<char>::empty()
    } else if parts.len() == 1 {
        parts[0]
    } else {
        join_with(parts.drop_last(), sep) + sep + parts.last()
    }
}

/// What `build` returns on a field set.
pub open spec fn build_spec(f: FieldsView) -> Seq<char> {
    join_with(segment_list(f), separator(f.operator))
}

fn push_segment(parts: &mut Vec<String>, prefix: &str, value: &str, quoted: bool)
    ensures
        final(parts)@.len() == old(parts)@.len() + 1,
        forall|k: int| 0 <= k < old(parts)@.len() ==> final(parts)@[k] == old(parts)@[k],
        quoted ==> final(parts)@.last()@ == prefix@ + value@ + "\""@,
        !quoted ==> final(parts)@.last()@ == prefix@ + value@,
{
    let mut seg = String::new();
    seg.append(prefix);
    seg.append(value);
    if quoted {
        seg.append("\"");
        proof {
            assert(seg@ =~= prefix@ + value@ + "\""@);
        }
    } else {
        proof {
            assert(seg@ =~= prefix@ + value@);
        }
    }
    parts.push(seg);
}

/// Builds the query string for a field set: the non-empty fields' segments
/// in fixed order, joined by the separator derived from the operator.
pub fn build(data: &DorkData) -> (r: String)
    ensures
        r@ == build_spec(data@),
{
    let op = trimmed(data.operator.as_str());
    let mut sep = String::new();
    sep.append(" ");
    if !op.as_str().is_empty() {
        sep.append(op.as_str());
        sep.append(" ");
    }
    proof {
        assert(sep@ == separator(data@.operator));
    }

    let mut parts: Vec<String> = Vec::new();
    let ghost mut gsegs: Seq<Seq<char>> = Seq::empty();
    proof {
        assert(parts.deep_view() =~= gsegs);
    }
    if !data.site.as_str().is_empty() {
        push_segment(&mut parts, "site:", data.site.as_str(), false);
        proof {
            gsegs = gsegs.push("site:"@ + data@.site);
        }
    }
    proof {
        assert(parts.deep_view() =~= gsegs);
    }
    if !data.inurl.as_str().is_empty() {
        push_segment(&mut parts, "inurl:\"", data.inurl.as_str(), true);
        proof {
            gsegs = gsegs.push("inurl:\""@ + data@.inurl + "\""@);
        }
    }
    proof {
        assert(parts.deep_view() =~= gsegs);
    }
    if !data.intitle.as_str().is_empty() {
        push_segment(&mut parts, "intitle:\"", data.intitle.as_str(), true);
        proof {
            gsegs = gsegs.push("intitle:\""@ + data@.intitle + "\""@);
        }
    }
    proof {
        assert(parts.deep_view() =~= gsegs);
    }
    if !data.filetype.as_str().is_empty() {
        push_segment(&mut parts, "filetype:", data.filetype.as_str(), false);
        proof {
            gsegs = gsegs.push("filetype:"@ + data@.filetype);
        }
    }
    proof {
        assert(parts.deep_view() =~= gsegs);
    }
    if !data.intext.as_str().is_empty() {
        push_segment(&mut parts, "intext:\"", data.intext.as_str(), true);
        proof {
            gsegs = gsegs.push("intext:\""@ + data@.intext + "\""@);
        }
    }
    proof {
        assert(parts.deep_view() =~= gsegs);
        assert(gsegs =~= segment_list(data@));
    }

    let mut out = String::new();
    let mut i: usize = 0;
    while i < parts.len()
        invariant
            parts.deep_view() == segment_list(data@),
            sep@ == separator(data@.operator),
            i <= parts@.len(),
            out@ == join_with(parts.deep_view().take(i as int), sep@),
        decreases parts@.len() - i,
    {
        if i > 0 {
            out.append(sep.as_str());
        }
        out.append(parts[i].as_str());
        proof {
            let dv = parts.deep_view();
            assert(dv.take(i + 1).drop_last() =~= dv.take(i as int));
            assert(dv.take(i + 1).last() == dv[i as int]);
            assert(dv[i as int] == parts@[i as int]@);
        }
        i += 1;
    }
    proof {
        assert(parts.deep_view().take(parts@.len() as int) =~= parts.deep_view());
    }
    out
}

/// The number of leading non-whitespace characters of `s`.
pub open spec fn word_len(s: Seq<char>) -> int
    decreases s.len(),
{
    if s.len() == 0 || is_wspace(s[0]) {
        0
    } else {
        1 + word_len(s.drop_first())
    }
}

proof fn lemma_word_len_bounds(s: Seq<char>)
    ensures
        0 <= word_len(s) <= s.len(),
        s.len() > 0 && !is_wspace(s[0]) ==> word_len(s) >= 1,
    decreases s.len(),
{
    if s.len() > 0 && !is_wspace(s[0]) {
        lemma_word_len_bounds(s.drop_first());
    }
}

proof fn lemma_word_len_is(s: Seq<char>, m: int)
    requires
        0 <= m <= s.len(),
        forall|k: int| 0 <= k < m ==> !is_wspace(s[k]),
        m == s.len() || is_wspace(s[m]),
    ensures
        word_len(s) == m,
    decreases m,
{
    if m == 0 {
    } else {
        lemma_word_len_is(s.drop_first(), m - 1);
    }
}

/// The whitespace-separated tokens of `s`, in order.
pub open spec fn tokens_of(s: Seq<char>) -> Seq<Seq<char>>
    decreases s.len(),
    via tokens_of_decreases
{
    if s.len() == 0 {
        Seq::<Seq<char>>::empty()
    } else if is_wspace(s[0]) {
        tokens_of(s.drop_first())
    } else {
        seq![s.take(word_len(s))] + tokens_of(s.skip(word_len(s)))
    }
}

#[via_fn]
proof fn tokens_of_decreases(s: Seq<char>) {
    if s.len() > 0 && !is_wspace(s[0]) {
        lemma_word_len_bounds(s);
    }
}

proof fn lemma_word_at(s: Seq<char>, i: int, j: int)
    requires
        0 <= i < j <= s.len(),
        forall|k: int| i <= k < j ==> !is_wspace(s[k]),
        j == s.len() || is_wspace(s[j]),
    ensures
        tokens_of(s.skip(i)) == seq![s.subrange(i, j)] + tokens_of(s.skip(j)),
{
    let t = s.skip(i);
    assert(!is_wspace(t[0]));
    lemma_word_len_is(t, j - i);
    assert(t.take(j - i) =~= s.subrange(i, j));
    assert(t.skip(j - i) =~= s.skip(j));
}

/// Splits a query into its whitespace-separated tokens.
pub fn tokenize(q: &str) -> (r: Vec<String>)
    ensures
        r.deep_view() == tokens_of(q@),
{
    let n = q.unicode_len();
    let mut out: Vec<String> = Vec::new();
    let mut i: usize = 0;
    proof {
        assert(q@.skip(0) =~= q@);
        assert(out.deep_view() + tokens_of(q@) =~= tokens_of(q@));
    }
    while i < n
        invariant
            n == q@.len(),
            i <= n,
            tokens_of(q@) == out.deep_view() + tokens_of(q@.skip(i as int)),
        decreases n - i,
    {
        if is_whitespace_char(q.get_char(i)) {
            proof {
                assert(q@.skip(i as int).drop_first() =~= q@.skip(i + 1));
            }
            i += 1;
        } else {
            let mut j: usize = i + 1;
            while j < n && !is_whitespace_char(q.get_char(j))
                invariant
                    n == q@.len(),
                    i < j <= n,
                    forall|k: int| i <= k < j ==> !is_wspace(q@[k]),
                decreases n - j,
            {
                j += 1;
            }
            let w = q.substring_char(i, j).to_owned();
            let ghost dv0 = out.deep_view();
            out.push(w);
            proof {
                lemma_word_at(q@, i as int, j as int);
                assert(out.deep_view() =~= dv0 + seq![q@.subrange(i as int, j as int)]);
                assert(dv0 + (seq![q@.subrange(i as int, j as int)] + tokens_of(q@.skip(j as int)))
                    =~= out.deep_view() + tokens_of(q@.skip(j as int)));
            }
            i = j;
        }
    }
    proof {
        assert(q@.skip(n as int) =~= Seq::<char>::empty());
        assert(out.deep_view() + tokens_of(Seq::<char>::empty()) =~= out.deep_view());
    }
    out
}

/// `s` starts with the characters of `p`.
pub open spec fn has_prefix(s: Seq<char>, p: Seq<char>) -> bool {
    s.len() >= p.len() && s.take(p.len() as int) == p
}

/// The token's remainder after `p` when the token starts with `p`.
fn strip_prefix_chars(t: &str, p: &str) -> (r: Option<String>)
    ensures
        match r {
            Some(rest) => has_prefix(t@, p@) && rest@ == t@.skip(p@.len() as int),
            None => !has_prefix(t@, p@),
        },
{
    let tlen = t.unicode_len();
    let plen = p.unicode_len();
    if tlen < plen {
        return None;
    }
    let mut i: usize = 0;
    while i < plen
        invariant
            tlen == t@.len(),
            plen == p@.len(),
            plen <= tlen,
            i <= plen,
            forall|k: int| 0 <= k < i ==> t@[k] == p@[k],
        decreases plen - i,
    {
        if t.get_char(i) != p.get_char(i) {
            proof {
                assert(t@.take(plen as int)[i as int] != p@[i as int]);
            }
            return None;
        }
        i += 1;
    }
    proof {
        assert(t@.take(plen as int) =~= p@);
    }
    Some(t.substring_char(plen, tlen).to_owned())
}

/// One parse step: a token with a recognised `field:` prefix overwrites that
/// field (the last such token wins); any other token is appended to the
/// intext field, space-joined.
pub open spec fn apply_token(f: FieldsView, tok: Seq<char>) -> FieldsView {
    if has_prefix(tok, "inurl:"@) {
        FieldsView { inurl: tok.skip("inurl:"@.len() as int), ..f }
    } else if has_prefix(tok, "intitle:"@) {
        FieldsView { intitle: tok.skip("intitle:"@.len() as int), ..f }
    } else if has_prefix(tok, "filetype:"@) {
        FieldsView { filetype: tok.skip("filetype:"@.len() as int), ..f }
    } else if has_prefix(tok, "site:"@) {
        FieldsView { site: tok.skip("site:"@.len() as int), ..f }
    } else if f.intext.len() == 0 {
        FieldsView { intext: tok, ..f }
    } else {
        FieldsView { intext: f.intext + " "@ + tok, ..f }
    }
}

/// All tokens applied in order, from the left.
pub open spec fn apply_tokens(f: FieldsView, toks: Seq<Seq<char>>) -> FieldsView
    decreases toks.len(),
{
    if toks.len() == 0 {
        f
    } else {
        apply_tokens(apply_token(f, toks[0]), toks.drop_first())
    }
}

/// What `parse_into` leaves in the fields: site, inurl, intitle and filetype
/// are reset and then the query's tokens are applied in order; intext and the
/// operator keep their prior content (intext accumulates behind it).
pub open spec fn parse_spec(f: FieldsView, q: Seq<char>) -> FieldsView {
    let cleared = FieldsView {
        site: Seq::<char>::empty(),
        inurl: Seq::<char>::empty(),
        intitle: Seq::<char>::empty(),
        filetype: Seq::<char>::empty(),
        ..f
    };
    apply_tokens(cleared, tokens_of(q))
}

fn apply_token_into(data: &mut DorkData, tok: &str)
    ensures
        final(data)@ == apply_token(old(data)@, tok@),
{
    if let Some(rest) = strip_prefix_chars(tok, "inurl:") {
        data.inurl = rest;
    } else if let Some(rest) = strip_prefix_chars(tok, "intitle:") {
        data.intitle = rest;
    } else if let Some(rest) = strip_prefix_chars(tok, "filetype:") {
        data.filetype = rest;
    } else if let Some(rest) = strip_prefix_chars(tok, "site:") {
        data.site = rest;
    } else if data.intext.as_str().is_empty() {
        data.intext = tok.to_owned();
    } else {
        data.intext.append(" ");
        data.intext.append(tok);
    }
}

/// Best-effort inverse of [`build`]: reconstructs fields from a query
/// string, token by token. Multi-word quoted values are not reassembled, so
/// this is lossy on values that contain whitespace.
pub fn parse_into(data: &mut DorkData, query: &str)
    ensures
        final(data)@ == parse_spec(old(data)@, query@),
{
    data.site = String::new();
    data.inurl = String::new();
    data.intitle = String::new();
    data.filetype = String::new();
    let ghost cleared = data@;
    let toks = tokenize(query);
    let mut i: usize = 0;
    proof {
        assert(toks.deep_view().skip(0) =~= toks.deep_view());
    }
    while i < toks.len()
        invariant
            toks.deep_view() == tokens_of(query@),
            i <= toks@.len(),
            apply_tokens(cleared, toks.deep_view()) == apply_tokens(data@, toks.deep_view().skip(i as int)),
        decreases toks@.len() - i,
    {
        let ghost dv = toks.deep_view();
        proof {
            assert(dv.skip(i as int)[0] == dv[i as int]);
            assert(dv.skip(i as int).drop_first() =~= dv.skip(i + 1));
        }
        apply_token_into(data, toks[i].as_str());
        i += 1;
    }
    proof {
        assert(toks.deep_view().skip(toks@.len() as int) =~= Seq::<Seq<char>>::empty());
    }
}

/// With an empty operator the separator is a single space, so `build` yields
/// the single-space-joined sequence of exactly the non-empty fields'
/// segments, in the fixed field order given by [`segment_list`].
pub proof fn lemma_build_plain_join(f: FieldsView)
    requires
        f.operator.len() == 0,
        f.site.len() > 0 || f.inurl.len() > 0 || f.intitle.len() > 0 || f.filetype.len() > 0
            || f.intext.len() > 0,
    ensures
        build_spec(f) == join_with(segment_list(f), " "@),
{
    assert(trim_seq(f.operator).len() == 0);
}

/// With every field empty, `build` returns the empty string.
pub proof fn lemma_build_all_empty(f: FieldsView)
    requires
        f.site.len() == 0,
        f.inurl.len() == 0,
        f.intitle.len() == 0,
        f.filetype.len() == 0,
        f.intext.len() == 0,
    ensures
        build_spec(f) == Seq::<char>::empty(),
{
    assert(segment_list(f) =~= Seq::<Seq<char>>::empty());
}

} // verus!
