//! Turning the current heads into a profile that matches them as they are.
use vstd::prelude::*;

use crate::head::WlHead;
use crate::mode::Mode;
use crate::profile::{Output, Profile};
use crate::search::{
    query_texts, CompareMethod, FieldSet, MultiSearch, Search, SearchField, SearchPattern,
    SingleSearch,
};

verus! {

/// What a converted profile is called and which fields its searches use.
pub struct ConverterSettings {
    pub profile_name: String,
    pub included_search_fields: Vec<SearchField>,
}

/// Builds a profile from heads.
pub struct Converter {
    pub settings: ConverterSettings,
}

/// The fields of `fs` without repeats, in the order each first occurs.
pub open spec fn unique_fields(fs: Seq<SearchField>, n: nat) -> Seq<SearchField>
    decreases n,
{
    if n == 0 {
        Seq::empty()
    } else {
        let prev = unique_fields(fs, (n - 1) as nat);
        if prev.contains(fs[n - 1]) {
            prev
        } else {
            prev.push(fs[n - 1])
        }
    }
}

/// The searches of an exported output: one full-text search per distinct
/// field of `fields`, in order, each on the head's text for that field.
pub open spec fn searches_for(ms: &MultiSearch, fields: Seq<SearchField>, head: &WlHead) -> bool {
    &&& ms.searches@.len() == unique_fields(fields, fields.len()).len()
    &&& forall|i: int|
        0 <= i < ms.searches@.len() ==> {
            let f = unique_fields(fields, fields.len())[i];
            let ss = #[trigger] ms.searches@[i];
            &&& ss.fields@ == seq![f]
            &&& ss.method == CompareMethod::Exact
            &&& ss.pattern matches SearchPattern::Fulltext(t) && t@ == (query_texts(
                head.base.description@,
                head.base.model@,
                head.base.name@,
                head.base.serial_number@,
                head.base.make@,
            ))(f)
        }
}

/// The output exported for `head`: see [`Converter::convert_head_to_output`].
pub open spec fn converted(r: &Output, head: &WlHead, fields: Seq<SearchField>) -> bool {
    &&& r.enable == head.base.enabled
    &&& r.enable ==> {
        &&& r.mode == match head.current_mode {
            Some(m) => Some(Mode::WiHeRe(m.base.width, m.base.height, m.base.refresh)),
            None => None,
        }
        &&& r.position == Some(head.base.position)
        &&& r.transform == head.base.transform
        &&& r.scale == if head.base.scale != 0 {
            Some(head.base.scale)
        } else {
            None
        }
        &&& r.adaptive_sync == head.base.adaptive_sync
    }
    &&& r.search_pattern matches Search::Multi(ms) && searches_for(&ms, fields, head)
}

impl ConverterSettings {
    pub fn new(profile_name: String, included_search_fields: Vec<SearchField>) -> (r: ConverterSettings)
        ensures
            r.profile_name == profile_name,
            r.included_search_fields@ == included_search_fields@,
    {
        ConverterSettings { profile_name, included_search_fields }
    }

    pub fn converter(self) -> (r: Converter)
        ensures
            r.settings == self,
    {
        Converter { settings: self }
    }
}

impl Converter {
    /// One full-text search per included field, each on the head's text for
    /// that field; fields given twice count once.
    pub fn multi_search_from_head(&self, head: &WlHead) -> (r: MultiSearch)
        ensures
            searches_for(&r, self.settings.included_search_fields@, head),
    {
        let fields = &self.settings.included_search_fields;
        let ghost texts = query_texts(
            head.base.description@,
            head.base.model@,
            head.base.name@,
            head.base.serial_number@,
            head.base.make@,
        );
        let mut seen: Vec<SearchField> = Vec::new();
        let mut searches: Vec<SingleSearch> = Vec::new();
        let mut i: usize = 0;
        while i < fields.len()
            invariant
                i <= fields@.len(),
                fields == &self.settings.included_search_fields,
                texts == query_texts(
                    head.base.description@,
                    head.base.model@,
                    head.base.name@,
                    head.base.serial_number@,
                    head.base.make@,
                ),
                seen@ == unique_fields(fields@, i as nat),
                searches@.len() == seen@.len(),
                forall|k: int|
                    0 <= k < searches@.len() ==> {
                        let ss = #[trigger] searches@[k];
                        &&& ss.fields@ == seq![seen@[k]]
                        &&& ss.method == CompareMethod::Exact
                        &&& ss.pattern matches SearchPattern::Fulltext(t) && t@ == texts(seen@[k])
                    },
            decreases fields@.len() - i,
        {
            let f = fields[i];
            let mut dup = false;
            let mut j: usize = 0;
            while j < seen.len()
                invariant
                    j <= seen@.len(),
                    dup <==> exists|q: int| 0 <= q < j && seen@[q] == f,
                decreases seen@.len() - j,
            {
                if seen[j] == f {
                    dup = true;
                }
                j += 1;
            }
            proof {
                assert(dup <==> seen@.contains(f));
            }
            if !dup {
                let text = match f {
                    SearchField::Description => head.base.description.clone(),
                    SearchField::Model => head.base.model.clone(),
                    SearchField::Name => head.base.name.clone(),
                    SearchField::Serial => head.base.serial_number.clone(),
                    SearchField::Vendor => head.base.make.clone(),
                };
                proof {
                    assert(text@ == texts(f));
                }
                let ghost prev = searches@;
                let ghost prev_seen = seen@;
                searches.push(
                    SingleSearch {
                        fields: FieldSet::new(f),
                        pattern: SearchPattern::Fulltext(text),
                        method: CompareMethod::Exact,
                    },
                );
                seen.push(f);
                proof {
                    assert forall|k: int| 0 <= k < searches@.len() implies {
                        let ss = #[trigger] searches@[k];
                        &&& ss.fields@ == seq![seen@[k]]
                        &&& ss.method == CompareMethod::Exact
                        &&& ss.pattern matches SearchPattern::Fulltext(t) && t@ == texts(seen@[k])
                    } by {
                        if k < prev.len() {
                            assert(searches@[k] == prev[k]);
                            assert(seen@[k] == prev_seen[k]);
                        }
                    }
                }
            }
            i += 1;
        }
        MultiSearch::new(searches)
    }

    /// An output that matches `head` and sets it up as it is now: off where
    /// it is off; else its current mode, position, transform, a non-zero
    /// scale and its adaptive sync.
    pub fn convert_head_to_output(&self, head: &WlHead) -> (r: Output)
        ensures
            converted(&r, head, self.settings.included_search_fields@),
    {
        let search = Search::Multi(self.multi_search_from_head(head));
        if !head.base.enabled {
            return Output::disabled(search);
        }
        let mut output = Output::enabled(search);
        if let Some(m) = head.current_mode {
            output.mode = Some(Mode::WiHeRe(m.base.width, m.base.height, m.base.refresh));
        }
        output.position = Some(head.base.position);
        output.transform = head.base.transform;
        if head.base.scale != 0 {
            output.scale = Some(head.base.scale);
        }
        output.adaptive_sync = head.base.adaptive_sync;
        output
    }

    /// A profile with one output per head, in order.
    pub fn profile(&self, heads: &Vec<WlHead>) -> (r: Profile)
        ensures
            r.name == self.settings.profile_name,
            r.outputs@.len() == heads@.len(),
            forall|i: int|
                0 <= i < heads@.len() ==> converted(&(#[trigger] r.outputs@[i]), &heads@[i], self.settings.included_search_fields@),
    {
        let mut outputs: Vec<Output> = Vec::new();
        let mut i: usize = 0;
        while i < heads.len()
            invariant
                i <= heads@.len(),
                outputs@.len() == i,
                forall|k: int|
                    0 <= k < i ==> converted(&(#[trigger] outputs@[k]), &heads@[k], self.settings.included_search_fields@),
            decreases heads@.len() - i,
        {
            outputs.push(self.convert_head_to_output(&heads[i]));
            i += 1;
        }
        Profile::new(self.settings.profile_name.clone(), outputs)
    }
}

} // verus!
