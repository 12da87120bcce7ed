//! Parameters of the server's tools, as the tool calls carry them, and the
//! defaults the tools apply to what a call leaves out.
use vstd::prelude::*;

verus! {

#[verifier::external_type_specification]
#[verifier::external_body]
pub struct ExJsonValue(serde_json::Value);

#[derive(Debug, Clone)]
pub struct FsGetTreeParams {
    pub path: String,
    pub max_depth: Option<usize>,
}

#[derive(Debug, Clone)]
pub struct FsReadScriptParams {
    pub file_path: String,
}

#[derive(Debug, Clone)]
pub struct FsWriteScriptParams {
    pub file_path: String,
    pub content: String,
    pub create_directories: Option<bool>,
}

#[derive(Debug, Clone)]
pub struct FsDeleteScriptParams {
    pub file_path: String,
}

#[derive(Debug, Clone)]
pub struct FsSearchContentParams {
    pub path: String,
    pub pattern: String,
    pub extension: String,
}

#[derive(Debug, Clone)]
pub struct FsGetChangesParams {
    pub path: String,
}

#[derive(Debug, Clone)]
pub struct StudioGetDataModelParams {
    pub max_depth: Option<usize>,
}

#[derive(Debug, Clone)]
pub struct StudioGetDataModelPaginatedParams {
    pub max_depth: Option<usize>,
    pub start_path: Option<String>,
    pub limit: Option<usize>,
    pub cursor: Option<String>,
}

#[derive(Debug, Clone)]
pub struct StudioGetScriptSourceParams {
    pub path: String,
}

#[derive(Debug, Clone)]
pub struct StudioModifyScriptParams {
    pub path: String,
    pub new_source: String,
    pub record_undo: Option<bool>,
}

#[derive(Debug)]
pub struct StudioCreateInstanceParams {
    pub class_name: String,
    pub parent: String,
    pub name: String,
    /// Properties to set, as a JSON object.
    pub properties: Option<serde_json::Value>,
    pub record_undo: Option<bool>,
}

#[derive(Debug)]
pub struct StudioSetPropertyParams {
    pub path: String,
    pub property: String,
    /// The new value; its JSON type depends on the property.
    pub value: serde_json::Value,
    pub record_undo: Option<bool>,
}

#[derive(Debug, Clone)]
pub struct StudioDeleteInstanceParams {
    pub path: String,
    pub record_undo: Option<bool>,
}

#[derive(Debug, Clone)]
pub struct StudioFindInstancesParams {
    pub class_name: String,
    pub root: Option<String>,
}

#[derive(Debug, Clone)]
pub struct StudioGetOutputParams {
    pub limit: Option<usize>,
}

#[derive(Debug, Clone)]
pub struct StudioGetPropertiesParams {
    pub path: String,
    pub properties: Option<Vec<String>>,
}

#[derive(Debug, Clone)]
pub struct StudioGetBoundsParams {
    pub path: String,
}

#[derive(Debug, Clone)]
pub struct StudioInsertR15RigParams {
    pub parent: String,
    pub name: String,
    pub record_undo: Option<bool>,
}

#[derive(Debug, Clone)]
pub struct CloudPublishPlaceParams {
    pub universe_id: u64,
    pub place_id: u64,
    pub rbxl_path: String,
}

#[derive(Debug, Clone)]
pub struct CloudUploadAssetParams {
    pub asset_type: String,
    pub file_path: String,
    pub name: String,
    pub description: String,
    pub creator_id: u64,
}

#[derive(Debug, Clone)]
pub struct CloudDatastoreGetParams {
    pub universe_id: u64,
    pub datastore_name: String,
    pub key: String,
    pub scope: Option<String>,
}

#[derive(Debug)]
pub struct CloudDatastoreSetParams {
    pub universe_id: u64,
    pub datastore_name: String,
    pub key: String,
    /// The JSON value to store.
    pub value: serde_json::Value,
    pub scope: Option<String>,
}

#[derive(Debug)]
pub struct CloudMessagingPublishParams {
    pub universe_id: u64,
    pub topic: String,
    /// The message content, stringified for delivery.
    pub message: serde_json::Value,
}

#[derive(Debug, Clone)]
pub struct CloudOrderedDatastoreListParams {
    pub universe_id: u64,
    pub datastore_name: String,
    pub scope: Option<String>,
    pub max_page_size: Option<u32>,
    pub page_token: Option<String>,
    pub order_by: Option<String>,
    pub filter: Option<String>,
}

#[derive(Debug, Clone)]
pub struct CloudOrderedDatastoreSetParams {
    pub universe_id: u64,
    pub datastore_name: String,
    pub scope: Option<String>,
    pub entry_id: String,
    pub value: i64,
}

#[derive(Debug, Clone)]
pub struct CloudOrderedDatastoreIncrementParams {
    pub universe_id: u64,
    pub datastore_name: String,
    pub scope: Option<String>,
    pub entry_id: String,
    pub increment: i64,
}

#[derive(Debug, Clone)]
pub struct CloudOrderedDatastoreDeleteParams {
    pub universe_id: u64,
    pub datastore_name: String,
    pub scope: Option<String>,
    pub entry_id: String,
}

#[derive(Debug, Clone)]
pub struct CloudGetUniverseParams {
    pub universe_id: u64,
}

#[derive(Debug, Clone)]
pub struct CloudRestartServersParams {
    pub universe_id: u64,
}

#[derive(Debug, Clone)]
pub struct FsLintScriptParams {
    pub file_path: String,
    pub config_path: Option<String>,
}

#[derive(Debug, Clone)]
pub struct StyluaFormatParams {
    pub file_path: String,
    pub config_path: Option<String>,
    pub check_only: Option<bool>,
}

#[derive(Debug, Clone)]
pub struct RojoBuildParams {
    pub project_path: String,
    pub output_path: String,
}

#[derive(Debug, Clone)]
pub struct RojoSourcemapParams {
    pub project_path: String,
    pub output_path: Option<String>,
}

#[derive(Debug, Clone)]
pub struct WallyInstallParams {
    pub project_path: String,
}

#[derive(Debug, Clone)]
pub struct WallyUpdateParams {
    pub project_path: String,
}

#[derive(Debug, Clone)]
pub struct MoonwaveBuildParams {
    pub project_path: String,
    pub output_dir: Option<String>,
}

#[derive(Debug, Clone)]
pub struct FsWatchChangesParams {
    pub limit: Option<usize>,
}

#[derive(Debug, Clone)]
pub struct AiSearchCodebaseParams {
    pub query: String,
    pub limit: Option<usize>,
    /// The least similarity a result must have (a score from 0.0 to 1.0),
    /// held as the bit pattern of the `f64`.
    pub min_similarity_bits: Option<u64>,
}

#[derive(Debug, Clone)]
pub struct AiFindRelatedParams {
    pub path: String,
    pub max_depth: Option<usize>,
}

#[derive(Debug, Clone)]
pub struct AiGetContextParams {
    pub task: String,
    pub token_budget: Option<usize>,
}

#[derive(Debug, Clone)]
pub struct AiIndexProjectParams {
    pub path: Option<String>,
    pub force: Option<bool>,
}
fn opt_or(o: Option<usize>, d: usize) -> (r: usize)
    ensures
        r == match o {
            Some(v) => v,
            None => d,
        },
{
    match o {
        Some(v) => v,
        None => d,
    }
}

fn flag_or(o: Option<bool>, d: bool) -> (r: bool)
    ensures
        r == match o {
            Some(v) => v,
            None => d,
        },
{
    match o {
        Some(v) => v,
        None => d,
    }
}

impl FsGetTreeParams {
    /// The depth to list: as given, else 5.
    pub fn depth(&self) -> (r: usize)
        ensures
            r == match self.max_depth {
                Some(v) => v,
                None => 5,
            },
    {
        opt_or(self.max_depth, 5)
    }
}

impl FsWriteScriptParams {
    /// Whether missing parent directories are created: as given, else not.
    pub fn create_dirs(&self) -> (r: bool)
        ensures
            r == match self.create_directories {
                Some(v) => v,
                None => false,
            },
    {
        flag_or(self.create_directories, false)
    }
}

impl FsWatchChangesParams {
    /// How many changes to take: as given, else 100.
    pub fn take_limit(&self) -> (r: usize)
        ensures
            r == match self.limit {
                Some(v) => v,
                None => 100,
            },
    {
        opt_or(self.limit, 100)
    }
}

impl StyluaFormatParams {
    /// Whether to only check: as given, else not.
    pub fn check(&self) -> (r: bool)
        ensures
            r == match self.check_only {
                Some(v) => v,
                None => false,
            },
    {
        flag_or(self.check_only, false)
    }
}

impl StudioGetDataModelParams {
    /// The depth to read: as given, else 3.
    pub fn depth(&self) -> (r: usize)
        ensures
            r == match self.max_depth {
                Some(v) => v,
                None => 3,
            },
    {
        opt_or(self.max_depth, 3)
    }
}

impl StudioGetDataModelPaginatedParams {
    /// The depth to read: as given, else 3.
    pub fn depth(&self) -> (r: usize)
        ensures
            r == match self.max_depth {
                Some(v) => v,
                None => 3,
            },
    {
        opt_or(self.max_depth, 3)
    }

    /// The page size: as given (at most 1000), else 500.
    pub fn page_limit(&self) -> (r: usize)
        ensures
            r == match self.limit {
                Some(v) => if v < 1000 {
                    v
                } else {
                    1000
                },
                None => 500,
            },
    {
        let l = opt_or(self.limit, 500);
        if l < 1000 {
            l
        } else {
            1000
        }
    }

    /// Where to start: as given, else `game`.
    pub fn start(&self) -> (r: String)
        ensures
            r@ == match self.start_path {
                Some(s) => s@,
                None => "game"@,
            },
    {
        match &self.start_path {
            Some(s) => s.clone(),
            None => String::from_str("game"),
        }
    }
}

impl StudioGetOutputParams {
    /// How many output lines to read: as given, else 100.
    pub fn take_limit(&self) -> (r: usize)
        ensures
            r == match self.limit {
                Some(v) => v,
                None => 100,
            },
    {
        opt_or(self.limit, 100)
    }
}

impl StudioModifyScriptParams {
    /// Whether the change is recorded for undo: as given, else yes.
    pub fn undo(&self) -> (r: bool)
        ensures
            r == match self.record_undo {
                Some(v) => v,
                None => true,
            },
    {
        flag_or(self.record_undo, true)
    }
}

impl StudioCreateInstanceParams {
    /// Whether the change is recorded for undo: as given, else yes.
    pub fn undo(&self) -> (r: bool)
        ensures
            r == match self.record_undo {
                Some(v) => v,
                None => true,
            },
    {
        flag_or(self.record_undo, true)
    }
}

impl StudioSetPropertyParams {
    /// Whether the change is recorded for undo: as given, else yes.
    pub fn undo(&self) -> (r: bool)
        ensures
            r == match self.record_undo {
                Some(v) => v,
                None => true,
            },
    {
        flag_or(self.record_undo, true)
    }
}

impl StudioDeleteInstanceParams {
    /// Whether the change is recorded for undo: as given, else yes.
    pub fn undo(&self) -> (r: bool)
        ensures
            r == match self.record_undo {
                Some(v) => v,
                None => true,
            },
    {
        flag_or(self.record_undo, true)
    }
}

impl StudioInsertR15RigParams {
    /// Whether the change is recorded for undo: as given, else yes.
    pub fn undo(&self) -> (r: bool)
        ensures
            r == match self.record_undo {
                Some(v) => v,
                None => true,
            },
    {
        flag_or(self.record_undo, true)
    }
}

} // verus!
