//! The session controller: selection state and the transitions that wire
//! user actions to the catalog, the query builder and the history.

use vstd::prelude::*;
use crate::builder::{build, build_spec, parse_into, parse_spec};
use crate::catalog::{all_templates, catalog_list, filter_dorks_by_category, filter_templates};
use crate::fields::{DorkData, DorkTemplate, FieldsView, TemplateView};
use crate::history::{append_spec, History};

verus! {

/// A template's five field values written over a field set wholesale; the
/// operator is left untouched.
pub open spec fn apply_template_spec(f: FieldsView, t: TemplateView) -> FieldsView {
    FieldsView {
        site: t.site,
        inurl: t.inurl,
        intitle: t.intitle,
        filetype: t.filetype,
        intext: t.intext,
        operator: f.operator,
    }
}

/// The whole session: current fields, generated query, history and the
/// selection state, living for the process lifetime.
pub struct DorkApp {
    pub data: DorkData,
    pub query: String,
    pub history: History,
    pub templates: Vec<DorkTemplate>,
    pub selected_template: usize,
    pub selected_history: usize,
    pub selected_category: String,
}

impl DorkApp {
    /// The session invariant: the history holds no duplicates.
    pub open spec fn well_formed(&self) -> bool {
        self.history.well_formed()
    }

    /// The templates visible under the current category selection: the whole
    /// catalog when no category is chosen, else the case-insensitive filter.
    pub open spec fn filtered_view(&self) -> Seq<TemplateView> {
        if self.selected_category@.len() == 0 {
            self.templates.deep_view()
        } else {
            filter_templates(self.templates.deep_view(), self.selected_category@)
        }
    }

    /// A fresh session: empty fields, empty query and history, the fixed
    /// catalog, and no selection.
    pub fn default() -> (r: Self)
        ensures
            r.data@.site.len() == 0,
            r.data@.inurl.len() == 0,
            r.data@.intitle.len() == 0,
            r.data@.filetype.len() == 0,
            r.data@.intext.len() == 0,
            r.data@.operator.len() == 0,
            r.query@.len() == 0,
            r.history@ == Seq::<Seq<char>>::empty(),
            r.templates.deep_view() == catalog_list(),
            r.selected_template == 0,
            r.selected_history == 0,
            r.selected_category@.len() == 0,
            r.well_formed(),
    {
        DorkApp {
            data: DorkData::empty(),
            query: String::new(),
            history: History::new(),
            templates: all_templates(),
            selected_template: 0,
            selected_history: 0,
            selected_category: String::new(),
        }
    }

    /// Rebuilds the query from the current fields and appends it to the
    /// history when it is new and non-empty. Returns whether the history
    /// changed, so the caller knows to persist it.
    pub fn generate_query(&mut self) -> (changed: bool)
        requires
            old(self).well_formed(),
        ensures
            final(self).query@ == build_spec(old(self).data@),
            final(self).history@ == append_spec(old(self).history@, build_spec(old(self).data@)),
            final(self).well_formed(),
            changed == (build_spec(old(self).data@).len() > 0 && !old(self).history@.contains(
                build_spec(old(self).data@),
            )),
            final(self).data == old(self).data,
            final(self).templates == old(self).templates,
            final(self).selected_template == old(self).selected_template,
            final(self).selected_history == old(self).selected_history,
            final(self).selected_category == old(self).selected_category,
    {
        self.query = build(&self.data);
        self.history.append(self.query.as_str())
    }

    /// Writes the catalog entry at `index` over the fields, leaving the
    /// operator as it was.
    pub fn apply_template(&mut self, index: usize)
        requires
            index < old(self).templates@.len(),
        ensures
            final(self).data@ == apply_template_spec(
                old(self).data@,
                old(self).templates.deep_view()[index as int],
            ),
            final(self).query == old(self).query,
            final(self).history == old(self).history,
            final(self).templates == old(self).templates,
            final(self).selected_template == old(self).selected_template,
            final(self).selected_history == old(self).selected_history,
            final(self).selected_category == old(self).selected_category,
    {
        self.data.site = self.templates[index].site.clone();
        self.data.inurl = self.templates[index].inurl.clone();
        self.data.intitle = self.templates[index].intitle.clone();
        self.data.filetype = self.templates[index].filetype.clone();
        self.data.intext = self.templates[index].intext.clone();
    }

    /// Reconstructs the fields from a stored query string, best-effort: the
    /// four prefixed fields are reset and refilled token by token, while
    /// intext accumulates and the operator is left alone.
    pub fn apply_query_string(&mut self, query: &str)
        ensures
            final(self).data@ == parse_spec(old(self).data@, query@),
            final(self).query == old(self).query,
            final(self).history == old(self).history,
            final(self).templates == old(self).templates,
            final(self).selected_template == old(self).selected_template,
            final(self).selected_history == old(self).selected_history,
            final(self).selected_category == old(self).selected_category,
    {
        parse_into(&mut self.data, query);
    }

    /// Selects a category and resets the template selection to the start of
    /// the newly filtered list.
    pub fn select_category(&mut self, category: String)
        ensures
            final(self).selected_category == category,
            final(self).selected_template == 0,
            final(self).data == old(self).data,
            final(self).query == old(self).query,
            final(self).history == old(self).history,
            final(self).templates == old(self).templates,
            final(self).selected_history == old(self).selected_history,
    {
        self.selected_category = category;
        self.selected_template = 0;
    }

    /// The templates visible under the current category selection, in
    /// catalog order.
    pub fn filtered_templates(&self) -> (r: Vec<DorkTemplate>)
        ensures
            r.deep_view() == self.filtered_view(),
    {
        if self.selected_category.as_str().is_empty() {
            let mut out: Vec<DorkTemplate> = Vec::new();
            let mut i: usize = 0;
            proof {
                assert(out.deep_view() =~= self.templates.deep_view().take(0));
            }
            while i < self.templates.len()
                invariant
                    i <= self.templates@.len(),
                    out.deep_view() == self.templates.deep_view().take(i as int),
                decreases self.templates@.len() - i,
            {
                let ghost odv = out.deep_view();
                out.push(self.templates[i].clone());
                proof {
                    assert(out.deep_view() =~= odv.push(self.templates.deep_view()[i as int]));
                    assert(self.templates.deep_view().take(i + 1) =~= odv.push(
                        self.templates.deep_view()[i as int],
                    ));
                }
                i += 1;
            }
            proof {
                assert(self.templates.deep_view().take(self.templates@.len() as int)
                    =~= self.templates.deep_view());
            }
            out
        } else {
            filter_dorks_by_category(&self.templates, self.selected_category.as_str())
        }
    }

    /// Applies the template at `i` in the currently filtered list, rebuilds
    /// the query and appends it to the history; out-of-range selections do
    /// nothing. Returns whether the history changed.
    pub fn select_template(&mut self, i: usize) -> (changed: bool)
        requires
            old(self).well_formed(),
        ensures
            final(self).well_formed(),
            i < old(self).filtered_view().len() ==> {
                let nf = apply_template_spec(old(self).data@, old(self).filtered_view()[i as int]);
                &&& final(self).data@ == nf
                &&& final(self).query@ == build_spec(nf)
                &&& final(self).history@ == append_spec(old(self).history@, build_spec(nf))
                &&& final(self).selected_template == i
                &&& changed == (build_spec(nf).len() > 0 && !old(self).history@.contains(
                    build_spec(nf),
                ))
            },
            i >= old(self).filtered_view().len() ==> *final(self) == *old(self) && !changed,
    {
        let filtered = self.filtered_templates();
        if i < filtered.len() {
            self.selected_template = i;
            self.data.site = filtered[i].site.clone();
            self.data.inurl = filtered[i].inurl.clone();
            self.data.intitle = filtered[i].intitle.clone();
            self.data.filetype = filtered[i].filetype.clone();
            self.data.intext = filtered[i].intext.clone();
            proof {
                assert(self.data@ == apply_template_spec(
                    old(self).data@,
                    old(self).filtered_view()[i as int],
                ));
            }
            self.generate_query()
        } else {
            false
        }
    }

    /// Re-applies the history entry at `i`: its text is parsed back into the
    /// fields, the query is rebuilt and re-appended (a no-op when the rebuilt
    /// text is already present); out-of-range selections do nothing. Returns
    /// whether the history changed.
    pub fn select_history(&mut self, i: usize) -> (changed: bool)
        requires
            old(self).well_formed(),
        ensures
            final(self).well_formed(),
            i < old(self).history@.len() ==> {
                let nf = parse_spec(old(self).data@, old(self).history@[i as int]);
                &&& final(self).data@ == nf
                &&& final(self).query@ == build_spec(nf)
                &&& final(self).history@ == append_spec(old(self).history@, build_spec(nf))
                &&& final(self).selected_history == i
                &&& changed == (build_spec(nf).len() > 0 && !old(self).history@.contains(
                    build_spec(nf),
                ))
            },
            i >= old(self).history@.len() ==> *final(self) == *old(self) && !changed,
    {
        let entry = match self.history.get(i) {
            Some(e) => e.clone(),
            None => {
                return false;
            },
        };
        self.selected_history = i;
        parse_into(&mut self.data, entry.as_str());
        self.generate_query()
    }
}

} // verus!
