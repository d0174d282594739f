//! What the window shows first, from what the configuration remembered: the asset types
//! and status groups selected last time, the author filters saved for those types, and
//! whether to ask for a login straight away.
use vstd::prelude::*;
use crate::asset::AssetType;
use crate::asset_types::{from_labels, from_labels_spec, label_views};
use crate::auth::Credentials;
use crate::authors::{initial_author_filters, initial_filter_source, strictly_sorted, texts};
use crate::notion::StatusGroup;
use crate::text::{owned, trim};

verus! {

/// The selections the window opens with.
pub struct Startup {
    pub selected_types: Vec<AssetType>,
    pub selected_status_groups: Vec<StatusGroup>,
    /// The type whose tab is in front: the first selected.
    pub current_type: AssetType,
    pub author_filters: Vec<String>,
    /// The first author filter, or empty when there is none.
    pub author_filter: String,
    /// No token and nothing to refresh one with: the login prompt opens at once.
    pub token_prompt_open: bool,
}

/// The labels the selected types are read from: the saved selection, or the last tab
/// alone when none was saved.
pub open spec fn type_labels(last_tab: Seq<char>, last_asset_types: Seq<String>) -> Seq<Seq<char>> {
    if last_asset_types.len() == 0 {
        seq![last_tab]
    } else {
        label_views(last_asset_types)
    }
}

pub fn startup_selection(
    last_tab: &str,
    last_asset_types: &Vec<String>,
    last_status_groups: &Vec<StatusGroup>,
    saved_author_filters_by_type: &[(String, Vec<String>)],
    last_author_filters: &[String],
    last_author_filter: &str,
    credentials: &Credentials,
) -> (r: Startup)
    ensures
        r.selected_types@ == from_labels_spec(type_labels(last_tab@, last_asset_types@)),
        r.selected_status_groups@ == if last_status_groups@.len() == 0 {
            seq![StatusGroup::InProgress]
        } else {
            last_status_groups@
        },
        r.current_type == r.selected_types@[0],
        strictly_sorted(texts(r.author_filters@)),
        forall|t: Seq<char>|
            texts(r.author_filters@).contains(t) <==> (t.len() > 0 && initial_filter_source(
                saved_author_filters_by_type@,
                texts(last_author_filters@),
                last_author_filter@,
                r.selected_types@,
            ).contains(t)),
        r.author_filter@ == if r.author_filters@.len() == 0 {
            Seq::<char>::empty()
        } else {
            r.author_filters@[0]@
        },
        r.token_prompt_open == (trim(credentials.auth_access_token@).len() == 0 && trim(
            credentials.auth_refresh_token@,
        ).len() == 0),
{
    let selected_types = if last_asset_types.len() == 0 {
        let mut labels: Vec<String> = Vec::new();
        labels.push(owned(last_tab));
        assert(label_views(labels@) =~= seq![last_tab@]);
        from_labels(labels.as_slice())
    } else {
        from_labels(last_asset_types.as_slice())
    };
    let mut groups: Vec<StatusGroup> = Vec::new();
    if last_status_groups.len() == 0 {
        groups.push(StatusGroup::InProgress);
        assert(groups@ =~= seq![StatusGroup::InProgress]);
    } else {
        let mut i: usize = 0;
        while i < last_status_groups.len()
            invariant
                i <= last_status_groups.len(),
                groups@ == last_status_groups@.take(i as int),
            decreases last_status_groups.len() - i,
        {
            groups.push(last_status_groups[i]);
            i += 1;
            assert(groups@ =~= last_status_groups@.take(i as int));
        }
        assert(last_status_groups@.take(last_status_groups@.len() as int) =~= last_status_groups@);
    }
    let current_type = selected_types[0];
    let author_filters = initial_author_filters(
        saved_author_filters_by_type,
        last_author_filters,
        last_author_filter,
        selected_types.as_slice(),
    );
    let author_filter = if author_filters.len() == 0 {
        String::new()
    } else {
        owned(author_filters[0].as_str())
    };
    let token_prompt_open = !credentials.has_access_token() && !credentials.can_refresh_access_token();
    Startup {
        selected_types,
        selected_status_groups: groups,
        current_type,
        author_filters,
        author_filter,
        token_prompt_open,
    }
}

} // verus!
