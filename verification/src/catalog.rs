//! The fixed template catalog: category listing and case-insensitive
//! filtering over an ordered table of named templates.

use vstd::prelude::*;
use crate::fields::{
    eq_ignore_case, lower_codes, str_eq, template_matches, DorkTemplate, TemplateView,
};

verus! {

/// Lexicographic order on character sequences, by character code: the order
/// in which category labels are listed.
pub open spec fn lex_lt(a: Seq<char>, b: Seq<char>) -> bool
    decreases a.len(),
{
    if b.len() == 0 {
        false
    } else if a.len() == 0 {
        true
    } else if (a[0] as int) < (b[0] as int) {
        true
    } else if (a[0] as int) > (b[0] as int) {
        false
    } else {
        lex_lt(a.drop_first(), b.drop_first())
    }
}

/// Every element is strictly below every later one.
pub open spec fn sorted_strict(s: Seq<Seq<char>>) -> bool {
    forall|i: int, j: int| 0 <= i < j < s.len() ==> lex_lt(s[i], s[j])
}

proof fn lemma_lex_irrefl(a: Seq<char>)
    ensures
        !lex_lt(a, a),
    decreases a.len(),
{
    if a.len() > 0 {
        lemma_lex_irrefl(a.drop_first());
    }
}

proof fn lemma_lex_trichotomy(a: Seq<char>, b: Seq<char>)
    ensures
        a == b || lex_lt(a, b) || lex_lt(b, a),
    decreases a.len(),
{
    if a.len() == 0 && b.len() == 0 {
        assert(a =~= b);
    } else if a.len() > 0 && b.len() > 0 && a[0] == b[0] {
        lemma_lex_trichotomy(a.drop_first(), b.drop_first());
        if a.drop_first() == b.drop_first() {
            assert(a.drop_first().len() == b.drop_first().len());
            assert(a.len() == b.len());
            assert forall|k: int| 0 <= k < a.len() implies a[k] == b[k] by {
                if k > 0 {
                    assert(a.drop_first()[k - 1] == a[k]);
                    assert(b.drop_first()[k - 1] == b[k]);
                }
            }
            assert(a =~= b);
        }
    }
}

proof fn lemma_lex_trans(a: Seq<char>, b: Seq<char>, c: Seq<char>)
    requires
        lex_lt(a, b),
        lex_lt(b, c),
    ensures
        lex_lt(a, c),
    decreases a.len(),
{
    if a.len() > 0 && b.len() > 0 && c.len() > 0 && a[0] == b[0] && b[0] == c[0] {
        lemma_lex_trans(a.drop_first(), b.drop_first(), c.drop_first());
    }
}

proof fn lemma_lex_skip(a: Seq<char>, b: Seq<char>, i: int)
    requires
        0 <= i <= a.len(),
        i <= b.len(),
        forall|k: int| 0 <= k < i ==> a[k] == b[k],
    ensures
        lex_lt(a, b) == lex_lt(a.skip(i), b.skip(i)),
    decreases i,
{
    if i > 0 {
        assert(a.drop_first() =~= a.skip(1));
        assert(b.drop_first() =~= b.skip(1));
        lemma_lex_skip(a.skip(1), b.skip(1), i - 1);
        assert(a.skip(1).skip(i - 1) =~= a.skip(i));
        assert(b.skip(1).skip(i - 1) =~= b.skip(i));
    } else {
        assert(a.skip(0) =~= a);
        assert(b.skip(0) =~= b);
    }
}

/// Strict lexicographic comparison of two strings, by character code.
pub fn str_lt(a: &str, b: &str) -> (r: bool)
    ensures
        r == lex_lt(a@, b@),
{
    let alen = a.unicode_len();
    let blen = b.unicode_len();
    let min: usize = if alen < blen {
        alen
    } else {
        blen
    };
    let mut i: usize = 0;
    while i < min
        invariant
            alen == a@.len(),
            blen == b@.len(),
            min <= alen,
            min <= blen,
            i <= min,
            forall|k: int| 0 <= k < i ==> a@[k] == b@[k],
        decreases min - i,
    {
        let ca = a.get_char(i);
        let cb = b.get_char(i);
        if (ca as u32) < (cb as u32) {
            proof {
                lemma_lex_skip(a@, b@, i as int);
            }
            return true;
        }
        if (ca as u32) > (cb as u32) {
            proof {
                lemma_lex_skip(a@, b@, i as int);
            }
            return false;
        }
        proof {
            assert(ca as int == cb as int);
            assert(ca == cb) by {
                assert(a@[i as int] == ca && b@[i as int] == cb);
                if ca != cb {
                    assert(ca as int != cb as int);
                }
            }
        }
        i += 1;
    }
    proof {
        lemma_lex_skip(a@, b@, min as int);
        if alen <= blen {
            assert(a@.skip(min as int) =~= Seq::<char>::empty());
        } else {
            assert(b@.skip(min as int) =~= Seq::<char>::empty());
        }
    }
    alen < blen
}

/// The category label of each template, in catalog order.
pub open spec fn categories_of(ts: Seq<TemplateView>) -> Seq<Seq<char>> {
    ts.map_values(|t: TemplateView| t.category)
}

proof fn lemma_contains_push(s: Seq<Seq<char>>, e: Seq<char>, x: Seq<char>)
    ensures
        s.push(e).contains(x) == (s.contains(x) || e == x),
{
    if s.push(e).contains(x) {
        let i = choose|i: int| 0 <= i < s.push(e).len() && s.push(e)[i] == x;
        if i < s.len() {
            assert(s[i] == x);
        }
    }
    if s.contains(x) {
        let i = choose|i: int| 0 <= i < s.len() && s[i] == x;
        assert(s.push(e)[i] == x);
    }
    if e == x {
        assert(s.push(e)[s.len() as int] == x);
    }
}

/// The distinct category labels of a catalog, in ascending lexicographic
/// order: duplicates anywhere in the input collapse to one entry.
pub fn unique_categories(dorks: &Vec<DorkTemplate>) -> (r: Vec<String>)
    ensures
        sorted_strict(r.deep_view()),
        forall|i: int, j: int|
            0 <= i < j < r.deep_view().len() ==> r.deep_view()[i] != r.deep_view()[j],
        forall|x: Seq<char>|
            r.deep_view().contains(x) == categories_of(dorks.deep_view()).contains(x),
{
    let ghost dv = dorks.deep_view();
    let mut out: Vec<String> = Vec::new();
    let mut i: usize = 0;
    proof {
        assert(out.deep_view() =~= Seq::<Seq<char>>::empty());
        assert(categories_of(dv.take(0)) =~= Seq::<Seq<char>>::empty());
    }
    while i < dorks.len()
        invariant
            dv == dorks.deep_view(),
            i <= dorks@.len(),
            sorted_strict(out.deep_view()),
            forall|x: Seq<char>|
                out.deep_view().contains(x) == categories_of(dv.take(i as int)).contains(x),
        decreases dorks@.len() - i,
    {
        let cat = &dorks[i].category;
        let ghost c = cat@;
        let ghost odv = out.deep_view();
        proof {
            assert(categories_of(dv.take(i + 1)) =~= categories_of(dv.take(i as int)).push(c));
            assert(forall|x: Seq<char>|
                #![auto]
                categories_of(dv.take(i + 1)).contains(x) == (categories_of(
                    dv.take(i as int),
                ).contains(x) || c == x)) by {
                assert forall|x: Seq<char>|
                    #![auto]
                    categories_of(dv.take(i + 1)).contains(x) == (categories_of(
                        dv.take(i as int),
                    ).contains(x) || c == x) by {
                    lemma_contains_push(categories_of(dv.take(i as int)), c, x);
                }
            }
        }
        let mut idx: usize = 0;
        let mut stop = false;
        while !stop && idx < out.len()
            invariant
                odv == out.deep_view(),
                c == cat@,
                idx <= out@.len(),
                forall|k: int| 0 <= k < idx ==> lex_lt(out.deep_view()[k], c),
                stop ==> idx < out@.len() && !lex_lt(out.deep_view()[idx as int], c),
            decreases out@.len() - idx + if stop { 0int } else { 1int },
        {
            proof {
                assert(out.deep_view()[idx as int] == out@[idx as int]@);
            }
            if str_lt(out[idx].as_str(), cat.as_str()) {
                idx += 1;
            } else {
                stop = true;
            }
        }
        let present = idx < out.len() && str_eq(out[idx].as_str(), cat.as_str());
        if present {
            proof {
                assert(odv[idx as int] == c);
                assert(odv.contains(c));
            }
        } else {
            proof {
                if idx < odv.len() {
                    lemma_lex_trichotomy(odv[idx as int], c);
                    assert(lex_lt(c, odv[idx as int]));
                    assert forall|k: int| idx <= k < odv.len() implies lex_lt(c, odv[k]) by {
                        if k > idx {
                            lemma_lex_trans(c, odv[idx as int], odv[k]);
                        }
                    }
                }
                assert(!odv.contains(c)) by {
                    if odv.contains(c) {
                        let k = choose|k: int| 0 <= k < odv.len() && odv[k] == c;
                        lemma_lex_irrefl(c);
                    }
                }
            }
            out.insert(idx, cat.clone());
            proof {
                assert(out.deep_view() =~= odv.insert(idx as int, c));
                odv.insert_ensures(idx as int, c);
                let ndv = out.deep_view();
                assert forall|p: int, q: int| 0 <= p < q < ndv.len() implies lex_lt(
                    ndv[p],
                    ndv[q],
                ) by {
                    if p < idx {
                        assert(ndv[p] == odv[p]);
                    } else if p == idx {
                        assert(ndv[p] == c);
                    } else {
                        assert(ndv[p] == odv[p - 1]);
                    }
                    if q < idx {
                        assert(ndv[q] == odv[q]);
                    } else if q == idx {
                        assert(ndv[q] == c);
                    } else {
                        assert(ndv[q] == odv[q - 1]);
                    }
                }
                assert forall|x: Seq<char>| #![auto] ndv.contains(x) == (odv.contains(x) || c
                    == x) by {
                    if ndv.contains(x) {
                        let k = choose|k: int| 0 <= k < ndv.len() && ndv[k] == x;
                        if k < idx {
                            assert(odv[k] == x);
                        } else if k > idx {
                            assert(odv[k - 1] == x);
                        }
                    }
                    if odv.contains(x) {
                        let k = choose|k: int| 0 <= k < odv.len() && odv[k] == x;
                        if k < idx {
                            assert(ndv[k] == x);
                        } else {
                            assert(ndv[k + 1] == x);
                        }
                    }
                    if c == x {
                        assert(ndv[idx as int] == x);
                    }
                }
            }
        }
        i += 1;
    }
    proof {
        assert(dv.take(dorks@.len() as int) =~= dv);
        let rdv = out.deep_view();
        assert forall|i: int, j: int| 0 <= i < j < rdv.len() implies rdv[i] != rdv[j] by {
            lemma_lex_irrefl(rdv[i]);
        }
    }
    out
}

/// The templates whose category matches `cat` up to ASCII case, in their
/// original order.
pub open spec fn filter_templates(ts: Seq<TemplateView>, cat: Seq<char>) -> Seq<TemplateView> {
    ts.filter(|t: TemplateView| template_matches(t, cat))
}

/// The templates of the catalog whose category matches, case-insensitively,
/// keeping the catalog's order.
pub fn filter_dorks_by_category(dorks: &Vec<DorkTemplate>, category: &str) -> (r: Vec<
    DorkTemplate,
>)
    ensures
        r.deep_view() == filter_templates(dorks.deep_view(), category@),
{
    let ghost dv = dorks.deep_view();
    let mut out: Vec<DorkTemplate> = Vec::new();
    let mut i: usize = 0;
    proof {
        reveal(Seq::filter);
        assert(out.deep_view() =~= Seq::<TemplateView>::empty());
        assert(dv.take(0) =~= Seq::<TemplateView>::empty());
    }
    while i < dorks.len()
        invariant
            dv == dorks.deep_view(),
            i <= dorks@.len(),
            out.deep_view() == filter_templates(dv.take(i as int), category@),
        decreases dorks@.len() - i,
    {
        let ghost odv = out.deep_view();
        let matches = dorks[i].matches_category(category);
        if matches {
            out.push(dorks[i].clone());
        }
        proof {
            reveal(Seq::filter);
            assert(dv.take(i + 1).drop_last() =~= dv.take(i as int));
            assert(dv.take(i + 1).last() == dv[i as int]);
            if matches {
                assert(out.deep_view() =~= odv.push(dv[i as int]));
            }
        }
        i += 1;
    }
    proof {
        assert(dv.take(dorks@.len() as int) =~= dv);
    }
    out
}

/// Filtering is insensitive to the ASCII case of the category label: two
/// labels equal up to case select exactly the same templates.
pub proof fn lemma_filter_case_insensitive(ts: Seq<TemplateView>, c1: Seq<char>, c2: Seq<char>)
    requires
        eq_ignore_case(c1, c2),
    ensures
        filter_templates(ts, c1) == filter_templates(ts, c2),
    decreases ts.len(),
{
    reveal(Seq::filter);
    if ts.len() > 0 {
        lemma_filter_case_insensitive(ts.drop_last(), c1, c2);
        assert(lower_codes(ts.last().category) == lower_codes(c1) <==> lower_codes(
            ts.last().category,
        ) == lower_codes(c2));
    }
}

fn template(
    name: &str,
    category: &str,
    site: &str,
    inurl: &str,
    intitle: &str,
    filetype: &str,
    intext: &str,
) -> (t: DorkTemplate)
    ensures
        t@ == (TemplateView {
            name: name@,
            category: category@,
            site: site@,
            inurl: inurl@,
            intitle: intitle@,
            filetype: filetype@,
            intext: intext@,
        }),
{
    DorkTemplate {
        name: name.to_owned(),
        category: category.to_owned(),
        site: site.to_owned(),
        inurl: inurl.to_owned(),
        intitle: intitle.to_owned(),
        filetype: filetype.to_owned(),
        intext: intext.to_owned(),
    }
}

/// The entries of the fixed catalog, in order.
pub open spec fn catalog_list() -> Seq<TemplateView> {
    seq![
        TemplateView {
            name: "Exposed Config"@,
            category: "Files"@,
            site: ""@,
            inurl: ""@,
            intitle: ""@,
            filetype: "env"@,
            intext: ""@,
        },
        TemplateView {
            name: "Admin Login"@,
            category: "Admin"@,
            site: ""@,
            inurl: "admin"@,
            intitle: "login"@,
            filetype: ""@,
            intext: ""@,
        },
        TemplateView {
            name: "Index Of Backups"@,
            category: "Files"@,
            site: ""@,
            inurl: ""@,
            intitle: "index of"@,
            filetype: ""@,
            intext: "backup"@,
        },
        TemplateView {
            name: "Login Portals"@,
            category: "Admin"@,
            site: ""@,
            inurl: "login"@,
            intitle: ""@,
            filetype: ""@,
            intext: ""@,
        },
        TemplateView {
            name: "Public Spreadsheets"@,
            category: "Documents"@,
            site: ""@,
            inurl: ""@,
            intitle: ""@,
            filetype: "xls"@,
            intext: ""@,
        },
        TemplateView {
            name: "PDF Reports"@,
            category: "Documents"@,
            site: ""@,
            inurl: ""@,
            intitle: ""@,
            filetype: "pdf"@,
            intext: "report"@,
        },
    ]
}

/// The fixed catalog of named templates, constant for the process lifetime.
pub fn all_templates() -> (r: Vec<DorkTemplate>)
    ensures
        r.deep_view() == catalog_list(),
{
    let mut v: Vec<DorkTemplate> = Vec::new();
    v.push(template("Exposed Config", "Files", "", "", "", "env", ""));
    v.push(template("Admin Login", "Admin", "", "admin", "login", "", ""));
    v.push(template("Index Of Backups", "Files", "", "", "index of", "", "backup"));
    v.push(template("Login Portals", "Admin", "", "login", "", "", ""));
    v.push(template("Public Spreadsheets", "Documents", "", "", "", "xls", ""));
    v.push(template("PDF Reports", "Documents", "", "", "", "pdf", "report"));
    proof {
        assert(v.deep_view() =~= catalog_list());
    }
    v
}

} // verus!
