//! The parameters of a search request, and the settings and candidate count
//! that they give a search over one collection.
use vstd::prelude::*;
use crate::search::params::{SearchConfig, search_k, search_k_spec};
use crate::search::query::Filter;

verus! {

/// Parameters for a search request. (How the similarity scores themselves
/// are computed is left to the scoring code, outside this library.)
#[derive(Debug, Clone, Copy)]
pub struct SearchParams<'a> {
    /// The metadata filter that hits must pass, if any.
    pub filter: Option<&'a Filter>,
    /// The request's own over-fetch factor for a filtered search, if any.
    pub filter_overfetch_override: Option<usize>,
    /// Index search settings that replace the collection's, if any.
    pub search_config_override: Option<SearchConfig>,
}

impl<'a> Default for SearchParams<'a> {
    /// No filter and no override.
    fn default() -> (p: SearchParams<'a>)
        ensures
            p.filter is None,
            p.filter_overfetch_override is None,
            p.search_config_override is None,
    {
        SearchParams { filter: None, filter_overfetch_override: None, search_config_override: None }
    }
}

impl<'a> SearchParams<'a> {
    /// The index search settings in force for a collection whose own
    /// settings are `collection`: the override if one is given.
    pub open spec fn effective_spec(&self, collection: SearchConfig) -> SearchConfig {
        match self.search_config_override {
            Some(o) => o,
            None => collection,
        }
    }

    /// The index search settings in force for a collection whose own
    /// settings are `collection`.
    pub fn effective_search(&self, collection: SearchConfig) -> (c: SearchConfig)
        ensures
            c == self.effective_spec(collection),
    {
        match self.search_config_override {
            Some(o) => o,
            None => collection,
        }
    }

    /// How many candidates to ask the index for in a top-`k` search of a
    /// collection whose own settings are `collection`: `k` without a filter;
    /// with one, `k` times the request's over-fetch factor, else that of the
    /// settings in force, at least 1 (saturating).
    pub fn candidates(&self, k: usize, collection: SearchConfig) -> (n: usize)
        ensures
            n == search_k_spec(
                k,
                self.filter is Some,
                self.effective_spec(collection).filter_overfetch,
                self.filter_overfetch_override,
            ),
    {
        let settings = self.effective_search(collection);
        search_k(k, self.filter.is_some(), settings.filter_overfetch, self.filter_overfetch_override)
    }
}

} // verus!
