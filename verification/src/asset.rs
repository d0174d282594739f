//! The kinds of asset the app manages and the transfers it can run on them.
use vstd::prelude::*;
use crate::copy_plan::Direction;
use crate::text::str_eq;

verus! {

/// The two asset libraries.
#[derive(Debug, Clone, Copy, PartialEq, Eq, Hash, Structural)]
pub enum AssetType {
    Hdris,
    Textures,
}

pub open spec fn asset_type_label(t: AssetType) -> Seq<char> {
    match t {
        AssetType::Hdris => "HDRIs"@,
        AssetType::Textures => "Textures"@,
    }
}

pub open spec fn asset_type_api(t: AssetType) -> Seq<char> {
    match t {
        AssetType::Hdris => "hdris"@,
        AssetType::Textures => "textures"@,
    }
}

pub open spec fn asset_type_order(t: AssetType) -> nat {
    match t {
        AssetType::Hdris => 0,
        AssetType::Textures => 1,
    }
}

/// The asset type whose label is exactly `label`, if any.
pub open spec fn asset_type_from_label(label: Seq<char>) -> Option<AssetType> {
    if label == "HDRIs"@ {
        Some(AssetType::Hdris)
    } else if label == "Textures"@ {
        Some(AssetType::Textures)
    } else {
        None
    }
}

impl AssetType {
    /// Every asset type, in display order.
    pub fn all() -> (r: Vec<AssetType>)
        ensures
            r@ == seq![AssetType::Hdris, AssetType::Textures],
    {
        let mut v: Vec<AssetType> = Vec::new();
        v.push(AssetType::Hdris);
        v.push(AssetType::Textures);
        v
    }

    pub fn order(self) -> (r: usize)
        ensures
            r == asset_type_order(self),
    {
        match self {
            AssetType::Hdris => 0,
            AssetType::Textures => 1,
        }
    }

    pub fn label(self) -> (r: &'static str)
        ensures
            r@ == asset_type_label(self),
    {
        match self {
            AssetType::Hdris => "HDRIs",
            AssetType::Textures => "Textures",
        }
    }

    /// Folder name of the type's library under a root.
    pub fn folder(self) -> (r: &'static str)
        ensures
            r@ == asset_type_label(self),
    {
        match self {
            AssetType::Hdris => "HDRIs",
            AssetType::Textures => "Textures",
        }
    }

    /// The `type` parameter of the asset API.
    pub fn api_type(self) -> (r: &'static str)
        ensures
            r@ == asset_type_api(self),
    {
        match self {
            AssetType::Hdris => "hdris",
            AssetType::Textures => "textures",
        }
    }

    /// Name of the type's asset-list cache file.
    pub fn cache_name(self) -> (r: &'static str)
        ensures
            r@ == asset_type_api(self),
    {
        match self {
            AssetType::Hdris => "hdris",
            AssetType::Textures => "textures",
        }
    }

    pub fn from_label(label: &str) -> (r: Option<AssetType>)
        ensures
            r == asset_type_from_label(label@),
    {
        if str_eq(label, "HDRIs") {
            Some(AssetType::Hdris)
        } else if str_eq(label, "Textures") {
            Some(AssetType::Textures)
        } else {
            None
        }
    }
}

/// A row of the asset table: one asset of one type.
#[derive(Debug, Clone, PartialEq, Eq, Hash)]
pub struct RowKey {
    pub asset_type: AssetType,
    pub slug: String,
}

/// What a copy job does. Archive (Prod to archive) and Unarchive (archive to Prod) go
/// through the same plan, copy and verify steps as Push and Pull.
#[derive(Debug, Clone, Copy, PartialEq, Eq, Hash, Structural)]
pub enum TransferKind {
    Push,
    Pull,
    Archive,
    Unarchive,
}

pub open spec fn progressive_text(k: TransferKind) -> Seq<char> {
    match k {
        TransferKind::Push => "Pushing"@,
        TransferKind::Pull => "Pulling"@,
        TransferKind::Archive => "Archiving"@,
        TransferKind::Unarchive => "Unarchiving"@,
    }
}

pub open spec fn done_text(k: TransferKind) -> Seq<char> {
    match k {
        TransferKind::Push => "Pushed to prod"@,
        TransferKind::Pull => "Pulled from prod"@,
        TransferKind::Archive => "Archived"@,
        TransferKind::Unarchive => "Unarchived"@,
    }
}

impl TransferKind {
    /// Present-progressive verb for an in-flight row and the status bar.
    pub fn progressive(self) -> (r: &'static str)
        ensures
            r@ == progressive_text(self),
    {
        match self {
            TransferKind::Push => "Pushing",
            TransferKind::Pull => "Pulling",
            TransferKind::Archive => "Archiving",
            TransferKind::Unarchive => "Unarchiving",
        }
    }

    /// Past-tense label for the success toast.
    pub fn done_label(self) -> (r: &'static str)
        ensures
            r@ == done_text(self),
    {
        match self {
            TransferKind::Push => "Pushed to prod",
            TransferKind::Pull => "Pulled from prod",
            TransferKind::Archive => "Archived",
            TransferKind::Unarchive => "Unarchived",
        }
    }

    pub fn touches_archive(self) -> (r: bool)
        ensures
            r == (self == TransferKind::Archive || self == TransferKind::Unarchive),
    {
        match self {
            TransferKind::Archive | TransferKind::Unarchive => true,
            _ => false,
        }
    }
}

/// The transfers offered in a row's push and pull menus.
#[derive(Debug, Clone, Copy, PartialEq, Eq, Hash, Structural)]
pub enum TransferAction {
    PushAll,
    PushStagingOnly,
    PullDefault,
    PullStagingOnly,
    PullAll,
}

pub open spec fn is_push_action(a: TransferAction) -> bool {
    a == TransferAction::PushAll || a == TransferAction::PushStagingOnly
}

pub open spec fn action_direction(a: TransferAction) -> Direction {
    if is_push_action(a) {
        Direction::Push
    } else {
        Direction::Pull
    }
}

pub open spec fn menu_text(a: TransferAction) -> Seq<char> {
    match a {
        TransferAction::PushAll => "Push all files"@,
        TransferAction::PushStagingOnly => "Push staging only"@,
        TransferAction::PullDefault => "Pull without raws/tiffs"@,
        TransferAction::PullStagingOnly => "Pull staging only"@,
        TransferAction::PullAll => "Pull all files"@,
    }
}

impl TransferAction {
    pub fn default_push() -> (r: TransferAction)
        ensures
            r == TransferAction::PushAll,
    {
        TransferAction::PushAll
    }

    pub fn default_pull() -> (r: TransferAction)
        ensures
            r == TransferAction::PullDefault,
    {
        TransferAction::PullDefault
    }

    /// Every action, in menu order.
    pub fn all() -> (r: [TransferAction; 5])
        ensures
            r@ == seq![
                TransferAction::PushAll,
                TransferAction::PushStagingOnly,
                TransferAction::PullDefault,
                TransferAction::PullStagingOnly,
                TransferAction::PullAll,
            ],
    {
        [
            TransferAction::PushAll,
            TransferAction::PushStagingOnly,
            TransferAction::PullDefault,
            TransferAction::PullStagingOnly,
            TransferAction::PullAll,
        ]
    }

    pub fn direction(self) -> (r: Direction)
        ensures
            r == action_direction(self),
    {
        match self {
            TransferAction::PushAll | TransferAction::PushStagingOnly => Direction::Push,
            _ => Direction::Pull,
        }
    }

    pub fn kind(self) -> (r: TransferKind)
        ensures
            r == (if is_push_action(self) {
                TransferKind::Push
            } else {
                TransferKind::Pull
            }),
    {
        match self {
            TransferAction::PushAll | TransferAction::PushStagingOnly => TransferKind::Push,
            _ => TransferKind::Pull,
        }
    }

    pub fn menu_label(self) -> (r: &'static str)
        ensures
            r@ == menu_text(self),
    {
        match self {
            TransferAction::PushAll => "Push all files",
            TransferAction::PushStagingOnly => "Push staging only",
            TransferAction::PullDefault => "Pull without raws/tiffs",
            TransferAction::PullStagingOnly => "Pull staging only",
            TransferAction::PullAll => "Pull all files",
        }
    }

    /// Marks the default action of each menu.
    pub fn default_suffix(self) -> (r: &'static str)
        ensures
            r@ == (if self == TransferAction::PushAll || self == TransferAction::PullDefault {
                " (default)"@
            } else {
                ""@
            }),
    {
        match self {
            TransferAction::PushAll => " (default)",
            TransferAction::PullDefault => " (default)",
            _ => "",
        }
    }

    /// What a row says when the action would copy nothing.
    pub fn nothing_label(self) -> (r: &'static str)
        ensures
            r@ == (if is_push_action(self) {
                "nothing to push"@
            } else {
                "nothing to pull"@
            }),
    {
        match self.direction() {
            Direction::Push => "nothing to push",
            Direction::Pull => "nothing to pull",
        }
    }
}

/// Summary of a transfer's plan: how many files it would copy and their total size.
#[derive(Debug, Clone, Copy, PartialEq, Eq, Structural)]
pub struct ActionPreview {
    pub file_count: usize,
    pub bytes: u64,
}

/// The answer to a conflict prompt.
#[derive(Debug, Clone, Copy, PartialEq, Eq, Structural)]
pub enum ConflictChoice {
    OverwriteAll,
    CopyOnlyNew,
    Cancel,
}


/// An asset's folder under a root: `{root}/{type folder}/{slug}`.
pub open spec fn asset_dir(root: Seq<char>, key: RowKey) -> Seq<char> {
    crate::ingest::path_join(crate::ingest::path_join(root, asset_type_label(key.asset_type)), key.slug@)
}

pub open spec fn staging_of(dir: Seq<char>) -> Seq<char> {
    crate::ingest::path_join(dir, "staging"@)
}

/// Where a transfer copies from and to, and what a pull leaves behind: pushes go from the
/// local folder to prod, pulls the other way; the staging-only transfers copy just the
/// `staging` folders; only the default pull skips RAWs and TIFFs.
pub open spec fn plan_roots_spec(local_root: Seq<char>, prod_root: Seq<char>, key: RowKey, action: TransferAction) -> (Seq<char>, Seq<char>, crate::copy_plan::PullFilterMode) {
    let local = asset_dir(local_root, key);
    let prod = asset_dir(prod_root, key);
    match action {
        TransferAction::PushAll => (local, prod, crate::copy_plan::PullFilterMode::NoFilter),
        TransferAction::PushStagingOnly => (staging_of(local), staging_of(prod), crate::copy_plan::PullFilterMode::NoFilter),
        TransferAction::PullDefault => (prod, local, crate::copy_plan::PullFilterMode::AlwaysSkipRawAndTif),
        TransferAction::PullStagingOnly => (staging_of(prod), staging_of(local), crate::copy_plan::PullFilterMode::NoFilter),
        TransferAction::PullAll => (prod, local, crate::copy_plan::PullFilterMode::NoFilter),
    }
}

pub fn transfer_plan_roots(local_root: &str, prod_root: &str, key: &RowKey, action: TransferAction) -> (r: (String, String, crate::copy_plan::PullFilterMode))
    ensures
        (r.0@, r.1@, r.2) == plan_roots_spec(local_root@, prod_root@, *key, action),
{
    let lt = crate::ingest::path_join_str(local_root, key.asset_type.folder());
    let local = crate::ingest::path_join_str(lt.as_str(), key.slug.as_str());
    let pt = crate::ingest::path_join_str(prod_root, key.asset_type.folder());
    let prod = crate::ingest::path_join_str(pt.as_str(), key.slug.as_str());
    match action {
        TransferAction::PushAll => (local, prod, crate::copy_plan::PullFilterMode::NoFilter),
        TransferAction::PushStagingOnly => (
            crate::ingest::path_join_str(local.as_str(), "staging"),
            crate::ingest::path_join_str(prod.as_str(), "staging"),
            crate::copy_plan::PullFilterMode::NoFilter,
        ),
        TransferAction::PullDefault => (prod, local, crate::copy_plan::PullFilterMode::AlwaysSkipRawAndTif),
        TransferAction::PullStagingOnly => (
            crate::ingest::path_join_str(prod.as_str(), "staging"),
            crate::ingest::path_join_str(local.as_str(), "staging"),
            crate::copy_plan::PullFilterMode::NoFilter,
        ),
        TransferAction::PullAll => (prod, local, crate::copy_plan::PullFilterMode::NoFilter),
    }
}

} // verus!
