//! One page of a listing, with keys grouped under a delimiter.
use crate::error::StoreError;
use crate::listing::{end_of_prefix, metadata_page, past, prefix_end, text_of, KeyQuery};
use crate::object::{
    meta_of, object_meta, ObjectMeta, ObjectMetaView, StoredObject, StoredObjectView,
};
use crate::path::{canonical, parse_path, path_fault};
use crate::text::{find, find_from, find_is_first, slice_text, starts_with, to_chars, views};
use vstd::prelude::*;

verus! {

/// The page size where the caller names none.
pub const DEFAULT_PAGE: usize = 1000;

/// What a caller asks of one page.
#[derive(Debug)]
pub struct PageOptions {
    pub offset: Option<String>,
    pub delimiter: Option<String>,
    pub max_keys: Option<usize>,
    pub page_token: Option<String>,
}

/// One page under construction.
#[derive(Debug)]
pub struct PageScan {
    pub prefix: String,
    pub delimiter: Option<String>,
    pub limit: usize,
    pub after: Option<String>,
    pub common_prefixes: Vec<String>,
    pub objects: Vec<ObjectMeta>,
}

/// What the page asks for next.
#[derive(Debug)]
pub enum PageStep {
    /// Read the next row.
    Continue,
    /// Find the last key from `from` up to `upper`, and pass it to `skip_to`.
    Seek { from: String, upper: Option<String> },
    /// The page is complete.
    Done { page_token: Option<String> },
}

/// The metadata of each object, as views.
pub open spec fn meta_views(objects: Seq<ObjectMeta>) -> Seq<ObjectMetaView> {
    objects.map_values(|o: ObjectMeta| o@)
}

/// A page under construction, as plain values.
#[verifier::ext_equal]
pub struct PageView {
    pub prefix: Seq<char>,
    pub delimiter: Option<Seq<char>>,
    pub limit: nat,
    pub after: Option<Seq<char>>,
    pub common_prefixes: Seq<Seq<char>>,
    pub objects: Seq<ObjectMetaView>,
}

/// A step of a page, as plain values.
pub enum StepView {
    Continue,
    Seek { from: Seq<char>, upper: Option<Seq<char>> },
    Done { page_token: Option<Seq<char>> },
    Fail { path: Seq<char>, words: Seq<char> },
}

impl View for PageScan {
    type V = PageView;

    open spec fn view(&self) -> PageView {
        PageView {
            prefix: self.prefix@,
            delimiter: text_of(self.delimiter),
            limit: self.limit as nat,
            after: text_of(self.after),
            common_prefixes: views(self.common_prefixes@),
            objects: meta_views(self.objects@),
        }
    }
}

impl PageView {
    /// How many entries the page holds.
    pub open spec fn count(self) -> nat {
        self.common_prefixes.len() + self.objects.len()
    }

    /// The page holds no more than its limit, and its delimiter is no empty text.
    pub open spec fn wf(self) -> bool {
        &&& self.count() <= self.limit
        &&& self.delimiter matches Some(delimiter) ==> delimiter.len() > 0
    }
}

/// The plain value of a step.
pub open spec fn step_view(step: Result<PageStep, StoreError>) -> Option<StepView> {
    match step {
        Ok(PageStep::Continue) => Some(StepView::Continue),
        Ok(PageStep::Seek { from, upper }) => Some(
            StepView::Seek { from: from@, upper: text_of(upper) },
        ),
        Ok(PageStep::Done { page_token }) => Some(
            StepView::Done { page_token: text_of(page_token) },
        ),
        Err(StoreError::InvalidPath { path, reason }) => Some(
            StepView::Fail { path: path@, words: reason@ },
        ),
        Err(_) => None,
    }
}

/// The delimiter that counts: an empty one groups nothing.
pub open spec fn grouping(delimiter: Option<Seq<char>>) -> Option<Seq<char>> {
    match delimiter {
        Some(text) => if text.len() > 0 {
            Some(text)
        } else {
            None
        },
        None => None,
    }
}

/// The group of a key: everything up to the end of the first delimiter behind
/// the prefix.
pub open spec fn group_of(
    key: Seq<char>,
    prefix: Seq<char>,
    delimiter: Option<Seq<char>>,
) -> Option<Seq<char>> {
    match delimiter {
        None => None,
        Some(delimiter) => match find_from(key, delimiter, prefix.len() as int) {
            None => None,
            Some(at) => Some(key.take(at + delimiter.len())),
        },
    }
}

/// The page before its first row, and whether it asks for any row at all.
pub open spec fn first_page(prefix: Seq<char>, options: PageOptions) -> PageView {
    PageView {
        prefix,
        delimiter: grouping(text_of(options.delimiter)),
        limit: match options.max_keys {
            Some(limit) => limit as nat,
            None => DEFAULT_PAGE as nat,
        },
        after: match options.page_token {
            Some(token) => Some(token@),
            None => text_of(options.offset),
        },
        common_prefixes: Seq::empty(),
        objects: Seq::empty(),
    }
}

/// What becomes of the page when the next row, or the end of the rows, is seen.
pub open spec fn accepted(page: PageView, next: Option<StoredObjectView>) -> (PageView, StepView) {
    match next {
        None => (page, StepView::Done { page_token: None }),
        Some(row) => if page.count() == page.limit {
            (page, StepView::Done { page_token: page.after })
        } else {
            match group_of(row.key, page.prefix, page.delimiter) {
                Some(group) => match canonical(group) {
                    Some(path) => (
                        PageView { common_prefixes: page.common_prefixes.push(path), ..page },
                        StepView::Seek { from: group, upper: end_of_prefix(group) },
                    ),
                    None => (page, StepView::Fail { path: group, words: path_fault(group) }),
                },
                None => match meta_of(row) {
                    Some(meta) => (
                        PageView {
                            objects: page.objects.push(meta),
                            after: Some(row.key),
                            ..page
                        },
                        StepView::Continue,
                    ),
                    None => (page, StepView::Fail { path: row.key, words: path_fault(row.key) }),
                },
            }
        },
    }
}

/// The group of a key, if it has one.
fn group(key: &str, prefix: &str, delimiter: &Option<String>) -> (found: Option<String>)
    requires
        starts_with(key@, prefix@),
        text_of(*delimiter) matches Some(text) ==> text.len() > 0,
    ensures
        text_of(found) == group_of(key@, prefix@, text_of(*delimiter)),
{
    match delimiter {
        None => None,
        Some(delimiter) => {
            let chars = to_chars(key);
            let needle = to_chars(delimiter.as_str());
            let skipped = to_chars(prefix);
            proof {
                find_is_first(chars@, needle@, skipped@.len() as int);
            }
            match find(&chars, &needle, skipped.len()) {
                None => None,
                Some(at) => {
                    assert(at + needle@.len() <= chars.len());
                    let text = slice_text(&chars, 0, at + needle.len());
                    Some(text)
                },
            }
        },
    }
}

impl PageScan {
    /// A page that has seen no row yet.
    pub fn new(prefix: &str, options: PageOptions) -> (page: PageScan)
        ensures
            page@ == first_page(prefix@, options),
            page@.wf(),
    {
        let after = match options.page_token {
            Some(token) => Some(token),
            None => options.offset,
        };
        let delimiter = match options.delimiter {
            Some(text) => if text.as_str().is_empty() {
                None
            } else {
                Some(text)
            },
            None => None,
        };
        let limit: usize = match options.max_keys {
            Some(limit) => limit,
            None => DEFAULT_PAGE,
        };
        PageScan {
            prefix: prefix.to_owned(),
            delimiter,
            limit,
            after,
            common_prefixes: Vec::new(),
            objects: Vec::new(),
        }
    }

    /// The read that gives the next row; none where the page may hold no entry.
    pub fn query(&self) -> (query: Option<KeyQuery>)
        ensures
            query is None <==> self@.limit == 0,
            query matches Some(query) ==> query.limit == 1 && forall|key: Seq<char>| #[trigger]
                query.selects(key) <==> starts_with(key, self@.prefix) && past(self@.after, key),
    {
        if self.limit == 0 {
            return None;
        }
        let after = match &self.after {
            Some(after) => Some(after.as_str()),
            None => None,
        };
        Some(metadata_page(self.prefix.as_str(), after, 1))
    }

    /// Takes the next row, or the end of the rows.
    pub fn accept(&mut self, next: Option<StoredObject>) -> (step: Result<PageStep, StoreError>)
        requires
            old(self)@.wf(),
            next matches Some(row) ==> starts_with(row@.key, old(self)@.prefix),
        ensures
            ({
                let row = match next {
                    Some(row) => Some(row@),
                    None => None,
                };
                &&& final(self)@ == accepted(old(self)@, row).0
                &&& step_view(step) == Some(accepted(old(self)@, row).1)
            }),
            final(self)@.wf(),
    {
        let row = match next {
            None => return Ok(PageStep::Done { page_token: None }),
            Some(row) => row,
        };
        if self.common_prefixes.len() + self.objects.len() == self.limit {
            let page_token = match &self.after {
                Some(after) => Some(after.clone()),
                None => None,
            };
            return Ok(PageStep::Done { page_token });
        }
        match group(row.key.as_str(), self.prefix.as_str(), &self.delimiter) {
            Some(group) => match parse_path(group.as_str()) {
                Ok(path) => {
                    self.common_prefixes.push(path);
                    let upper = prefix_end(group.as_str());
                    assert(views(self.common_prefixes@) =~= views(old(self).common_prefixes@).push(
                        path@,
                    ));
                    Ok(PageStep::Seek { from: group, upper })
                },
                Err(reason) => Err(StoreError::InvalidPath { path: group, reason }),
            },
            None => match object_meta(&row) {
                Ok(meta) => {
                    self.objects.push(meta);
                    assert(meta_views(self.objects@) =~= meta_views(old(self).objects@).push(
                        meta@,
                    ));
                    self.after = Some(row.key);
                    Ok(PageStep::Continue)
                },
                Err(error) => Err(error),
            },
        }
    }

    /// Moves the cursor to the last key of the group just listed.
    pub fn skip_to(&mut self, last: String)
        ensures
            final(self)@ == (PageView { after: Some(last@), ..old(self)@ }),
    {
        self.after = Some(last);
    }
}

} // verus!
