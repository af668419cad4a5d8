//! Kind-based event filtering: the cheapest, most selective pipeline stage.

use vstd::prelude::*;

use crate::processing::{in_family, kind_matches_family, PipelineConfigError};
use crate::text::{lower, str_trim, to_lowercase, trimmed};

verus! {

/// Drops events whose `kind` is outside the configured allow-list.
///
/// `None` allows everything: the default configuration must not silently
/// drop data. An allow-list entry matches an event kind either exactly or as
/// its dotted family (`"temperature"` allows `temperature.reading` but not
/// `temperatures.x`).
#[derive(Debug, Clone)]
pub struct KindFilter {
    allowed: Option<Vec<String>>,
}

/// An allow-list entry as the filter keeps it: trimmed, then lowercased.
pub open spec fn normalized_entry(entry: Seq<char>) -> Seq<char> {
    lower(trimmed(entry))
}

/// The views of a list of strings.
pub open spec fn string_views(v: Seq<String>) -> Seq<Seq<char>> {
    v.map_values(|s: String| s@)
}

/// A (normalized) allow-list admits a (lowercased) kind.
pub open spec fn admits(allowed: Option<Seq<Seq<char>>>, kind: Seq<char>) -> bool {
    allowed is None || admitted_by(allowed->0, kind)
}

/// Some entry of the list admits the kind.
pub open spec fn admitted_by(entries: Seq<Seq<char>>, kind: Seq<char>) -> bool {
    exists|i: int| 0 <= i < entries.len() && in_family(kind, #[trigger] entries[i])
}

impl View for KindFilter {
    type V = Option<Seq<Seq<char>>>;

    closed spec fn view(&self) -> Option<Seq<Seq<char>>> {
        match self.allowed {
            None => None,
            Some(v) => Some(string_views(v@)),
        }
    }
}

impl KindFilter {
    /// Creates a filter from the pipeline's `allowed_kinds` setting.
    ///
    /// Entries are trimmed and lowercased here so the hot path only
    /// compares; blank entries are rejected.
    pub fn new(allowed: Option<Vec<String>>) -> (r: Result<Self, PipelineConfigError>)
        ensures
            match allowed {
                None => r matches Ok(f) && f@ is None,
                Some(kinds) => match r {
                    Ok(f) => {
                        &&& forall|i: int| 0 <= i < kinds.len() ==> normalized_entry(#[trigger] kinds@[i]@).len() > 0
                        &&& f@ == Some(string_views(kinds@).map_values(|e: Seq<char>| normalized_entry(e)))
                    },
                    Err(e) => {
                        &&& e == PipelineConfigError::EmptyKindEntry
                        &&& exists|i: int| 0 <= i < kinds.len() && normalized_entry(#[trigger] kinds@[i]@).len() == 0
                    },
                },
            },
    {
        match allowed {
            None => Ok(KindFilter { allowed: None }),
            Some(kinds) => Self::normalize(kinds),
        }
    }

    fn normalize(kinds: Vec<String>) -> (r: Result<Self, PipelineConfigError>)
        ensures
            match r {
                Ok(f) => {
                    &&& forall|i: int| 0 <= i < kinds.len() ==> normalized_entry(#[trigger] kinds@[i]@).len() > 0
                    &&& f@ == Some(string_views(kinds@).map_values(|e: Seq<char>| normalized_entry(e)))
                },
                Err(e) => {
                    &&& e == PipelineConfigError::EmptyKindEntry
                    &&& exists|i: int| 0 <= i < kinds.len() && normalized_entry(#[trigger] kinds@[i]@).len() == 0
                },
            },
    {
        let mut normalized: Vec<String> = Vec::with_capacity(kinds.len());
        let mut i: usize = 0;
        while i < kinds.len()
            invariant
                i <= kinds.len(),
                normalized@.len() == i,
                forall|j: int| 0 <= j < i ==> normalized_entry(#[trigger] kinds@[j]@).len() > 0,
                forall|j: int| 0 <= j < i ==> (#[trigger] normalized@[j])@ == normalized_entry(kinds@[j]@),
            decreases kinds.len() - i,
        {
            let trimmed_entry = str_trim(kinds[i].as_str());
            let entry = to_lowercase(trimmed_entry.as_str());
            if entry.as_str().is_empty() {
                return Err(PipelineConfigError::EmptyKindEntry);
            }
            normalized.push(entry);
            i += 1;
        }
        let f = KindFilter { allowed: Some(normalized) };
        assert(string_views(normalized@) =~= string_views(kinds@).map_values(
            |e: Seq<char>| normalized_entry(e),
        ));
        Ok(f)
    }

    /// Returns `true` when the event kind (compared lowercased) passes the filter.
    pub fn allows(&self, kind: &str) -> (r: bool)
        ensures
            r == admits(self@, lower(kind@)),
    {
        match &self.allowed {
            None => true,
            Some(entries) => {
                let lk = to_lowercase(kind);
                let mut i: usize = 0;
                while i < entries.len()
                    invariant
                        i <= entries.len(),
                        self@ == Some(string_views(entries@)),
                        lk@ == lower(kind@),
                        forall|j: int| 0 <= j < i ==> !in_family(lk@, #[trigger] string_views(entries@)[j]),
                    decreases entries.len() - i,
                {
                    if kind_matches_family(lk.as_str(), entries[i].as_str()) {
                        assert(in_family(lk@, string_views(entries@)[i as int]));
                        assert(string_views(entries@).len() == entries@.len());
                        assert(admitted_by(string_views(entries@), lk@));
                        return true;
                    }
                    i += 1;
                }
                false
            },
        }
    }
}

} // verus!
