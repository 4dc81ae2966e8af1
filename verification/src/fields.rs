//! The structured field values behind a query, and the named templates that
//! pre-fill them.

use vstd::prelude::*;

verus! {

/// Mathematical view of a template: every field as a sequence of characters.
pub ghost struct TemplateView {
    pub name: Seq<char>,
    pub category: Seq<char>,
    pub site: Seq<char>,
    pub inurl: Seq<char>,
    pub intitle: Seq<char>,
    pub filetype: Seq<char>,
    pub intext: Seq<char>,
}

/// A named dork template: pre-filled field values grouped under a category.
pub struct DorkTemplate {
    pub name: String,
    pub category: String,
    pub site: String,
    pub inurl: String,
    pub intitle: String,
    pub filetype: String,
    pub intext: String,
}

impl View for DorkTemplate {
    type V = TemplateView;

    open spec fn view(&self) -> TemplateView {
        TemplateView {
            name: self.name@,
            category: self.category@,
            site: self.site@,
            inurl: self.inurl@,
            intitle: self.intitle@,
            filetype: self.filetype@,
            intext: self.intext@,
        }
    }
}

impl DeepView for DorkTemplate {
    type V = TemplateView;

    open spec fn deep_view(&self) -> TemplateView {
        self.view()
    }
}

impl Clone for DorkTemplate {
    fn clone(&self) -> (r: Self)
        ensures
            r@ == self@,
    {
        DorkTemplate {
            name: self.name.clone(),
            category: self.category.clone(),
            site: self.site.clone(),
            inurl: self.inurl.clone(),
            intitle: self.intitle.clone(),
            filetype: self.filetype.clone(),
            intext: self.intext.clone(),
        }
    }
}

/// Mathematical view of a field set.
pub ghost struct FieldsView {
    pub site: Seq<char>,
    pub inurl: Seq<char>,
    pub intitle: Seq<char>,
    pub filetype: Seq<char>,
    pub intext: Seq<char>,
    pub operator: Seq<char>,
}

/// The current field values: five search fields plus the logical operator
/// placed between generated segments.
pub struct DorkData {
    pub site: String,
    pub inurl: String,
    pub intitle: String,
    pub filetype: String,
    pub intext: String,
    pub operator: String,
}

impl View for DorkData {
    type V = FieldsView;

    open spec fn view(&self) -> FieldsView {
        FieldsView {
            site: self.site@,
            inurl: self.inurl@,
            intitle: self.intitle@,
            filetype: self.filetype@,
            intext: self.intext@,
            operator: self.operator@,
        }
    }
}

impl Clone for DorkData {
    fn clone(&self) -> (r: Self)
        ensures
            r@ == self@,
    {
        DorkData {
            site: self.site.clone(),
            inurl: self.inurl.clone(),
            intitle: self.intitle.clone(),
            filetype: self.filetype.clone(),
            intext: self.intext.clone(),
            operator: self.operator.clone(),
        }
    }
}

impl DorkData {
    /// A field set with every field empty.
    pub fn empty() -> (r: Self)
        ensures
            r@.site.len() == 0,
            r@.inurl.len() == 0,
            r@.intitle.len() == 0,
            r@.filetype.len() == 0,
            r@.intext.len() == 0,
            r@.operator.len() == 0,
    {
        DorkData {
            site: String::new(),
            inurl: String::new(),
            intitle: String::new(),
            filetype: String::new(),
            intext: String::new(),
            operator: String::new(),
        }
    }
}

/// The character code after ASCII lower-casing: codes of `A`..`Z` shift to
/// those of `a`..`z`, every other character keeps its own code.
pub open spec fn lower_code(c: char) -> int {
    if 65 <= c as int && c as int <= 90 {
        c as int + 32
    } else {
        c as int
    }
}

/// The sequence of ASCII-lower-cased character codes of `s`.
pub open spec fn lower_codes(s: Seq<char>) -> Seq<int> {
    s.map_values(|c: char| lower_code(c))
}

/// Two character sequences are equal up to ASCII case.
pub open spec fn eq_ignore_case(a: Seq<char>, b: Seq<char>) -> bool {
    lower_codes(a) == lower_codes(b)
}

fn lower_code_of(c: char) -> (r: u32)
    ensures
        r == lower_code(c),
{
    let u = c as u32;
    if 65 <= u && u <= 90 {
        u + 32
    } else {
        u
    }
}

/// Case-insensitive (ASCII fold) equality of two strings.
pub fn eq_ignore_ascii_case(a: &str, b: &str) -> (r: bool)
    ensures
        r == eq_ignore_case(a@, b@),
{
    let alen = a.unicode_len();
    let blen = b.unicode_len();
    if alen != blen {
        proof {
            assert(lower_codes(a@).len() != lower_codes(b@).len());
        }
        return false;
    }
    let mut i: usize = 0;
    while i < alen
        invariant
            alen == a@.len(),
            blen == b@.len(),
            alen == blen,
            i <= alen,
            forall|k: int| 0 <= k < i ==> lower_code(a@[k]) == lower_code(b@[k]),
        decreases alen - i,
    {
        if lower_code_of(a.get_char(i)) != lower_code_of(b.get_char(i)) {
            proof {
                assert(lower_codes(a@)[i as int] != lower_codes(b@)[i as int]);
            }
            return false;
        }
        i += 1;
    }
    proof {
        assert(lower_codes(a@) =~= lower_codes(b@));
    }
    true
}

/// Character-for-character equality of two strings.
pub fn str_eq(a: &str, b: &str) -> (r: bool)
    ensures
        r == (a@ == b@),
{
    let alen = a.unicode_len();
    let blen = b.unicode_len();
    if alen != blen {
        return false;
    }
    let mut i: usize = 0;
    while i < alen
        invariant
            alen == a@.len(),
            blen == b@.len(),
            alen == blen,
            i <= alen,
            forall|k: int| 0 <= k < i ==> a@[k] == b@[k],
        decreases alen - i,
    {
        if a.get_char(i) != b.get_char(i) {
            return false;
        }
        i += 1;
    }
    proof {
        assert(a@ =~= b@);
    }
    true
}

/// Whether a template matches a category label up to ASCII case.
pub open spec fn template_matches(t: TemplateView, category: Seq<char>) -> bool {
    eq_ignore_case(t.category, category)
}

impl DorkTemplate {
    /// Case-insensitive test of this template's category against a label.
    pub fn matches_category(&self, category: &str) -> (r: bool)
        ensures
            r == template_matches(self@, category@),
    {
        eq_ignore_ascii_case(self.category.as_str(), category)
    }
}

} // verus!
