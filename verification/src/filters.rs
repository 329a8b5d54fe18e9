//! The filters of a task query.

use vstd::prelude::*;
use vstd::string::*;

verus! {

/// One filter of a task query.
#[derive(Debug, PartialEq, Eq)]
pub enum TaskFilterKind {
    ProjectId(String),
    SectionId(String),
    Label(String),
    Filter(String),
}

impl TaskFilterKind {
    /// The name of the query parameter that carries the filter.
    pub open spec fn key(self) -> Seq<char> {
        match self {
            TaskFilterKind::ProjectId(_) => "project_id"@,
            TaskFilterKind::SectionId(_) => "section_id"@,
            TaskFilterKind::Label(_) => "label"@,
            TaskFilterKind::Filter(_) => "filter"@,
        }
    }

    /// The value that the filter asks for.
    pub open spec fn value(self) -> Seq<char> {
        match self {
            TaskFilterKind::ProjectId(v) => v@,
            TaskFilterKind::SectionId(v) => v@,
            TaskFilterKind::Label(v) => v@,
            TaskFilterKind::Filter(v) => v@,
        }
    }

    /// The filter as a query parameter: its name and its value.
    pub fn parse_filter(&self) -> (pair: (String, String))
        ensures
            pair.0@ == self.key(),
            pair.1@ == self.value(),
    {
        match self {
            TaskFilterKind::ProjectId(v) => (String::from_str("project_id"), v.clone()),
            TaskFilterKind::SectionId(v) => (String::from_str("section_id"), v.clone()),
            TaskFilterKind::Label(v) => (String::from_str("label"), v.clone()),
            TaskFilterKind::Filter(v) => (String::from_str("filter"), v.clone()),
        }
    }
}

/// The filters of one task query, in the order they were added.
pub struct DoistTaskFilters {
    filters: Vec<TaskFilterKind>,
}

/// The values of a list of query parameters.
pub open spec fn pair_views(pairs: Seq<(String, String)>) -> Seq<(Seq<char>, Seq<char>)> {
    Seq::new(pairs.len(), |i: int| (pairs[i].0@, pairs[i].1@))
}

impl View for DoistTaskFilters {
    type V = Seq<(Seq<char>, Seq<char>)>;

    /// The query parameters that the filters stand for.
    closed spec fn view(&self) -> Seq<(Seq<char>, Seq<char>)> {
        Seq::new(self.filters.len() as nat, |i: int| (self.filters[i].key(), self.filters[i].value()))
    }
}

impl DoistTaskFilters {
    /// No filters.
    pub fn new() -> (filters: Self)
        ensures
            filters@ == Seq::<(Seq<char>, Seq<char>)>::empty(),
    {
        let filters = DoistTaskFilters { filters: Vec::new() };
        filters
    }

    /// Adds a filter after those that are there.
    pub fn push(&mut self, filter: TaskFilterKind)
        ensures
            final(self)@ == old(self)@.push((filter.key(), filter.value())),
    {
        self.filters.push(filter);
    }

    /// The query parameters of the filters, one pair each, in order.
    pub fn build_query(&self) -> (query: Vec<(String, String)>)
        ensures
            pair_views(query@) == self@,
    {
        let mut query: Vec<(String, String)> = Vec::new();
        let mut i: usize = 0;
        while i < self.filters.len()
            invariant
                i <= self.filters.len(),
                query.len() == i,
                forall|k: int|
                    0 <= k < i ==> (#[trigger] query[k]).0@ == self.filters[k].key() && query[k].1@
                        == self.filters[k].value(),
            decreases self.filters.len() - i,
        {
            query.push(self.filters[i].parse_filter());
            i = i + 1;
        }
        query
    }
}

} // verus!
