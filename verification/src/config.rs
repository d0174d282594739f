//! Where the application keeps its files, and which saved configuration a start-up uses.
use vstd::prelude::*;
use crate::ingest::{path_join, path_join_str};

verus! {

/// The configuration file in the application's directory.
pub fn config_path(app_dir: &str) -> (r: String)
    ensures
        r@ == path_join(app_dir@, "config.toml"@),
{
    path_join_str(app_dir, "config.toml")
}

/// The log file in the application's directory.
pub fn log_path(app_dir: &str) -> (r: String)
    ensures
        r@ == path_join(app_dir@, "phase.log"@),
{
    path_join_str(app_dir, "phase.log")
}

/// The cache directory in the application's directory.
pub fn cache_dir_in(app_dir: &str) -> (r: String)
    ensures
        r@ == path_join(app_dir@, "cache"@),
{
    path_join_str(app_dir, "cache")
}

/// Where prod lives until the user says otherwise.
pub fn default_prod_root() -> (r: &'static str)
    ensures
        r@ == "P:\\Assets"@,
{
    "P:\\Assets"
}

/// Where local working copies live until the user says otherwise.
pub fn default_local_root() -> (r: &'static str)
    ensures
        r@ == "C:\\PHASE"@,
{
    "C:\\PHASE"
}

/// Pulls leave RAWs and TIFFs behind when the work folder has many TIFFs, unless the user
/// turns that off.
pub fn default_skip_pull_raw_tif_if_many_work_tifs() -> (r: bool)
    ensures
        r,
{
    true
}

/// Notion links open in the browser unless the user asks for the desktop app.
pub fn default_open_notion_links_in_desktop_app() -> (r: bool)
    ensures
        !r,
{
    false
}

/// What a start-up uses as its configuration.
#[derive(Debug)]
pub enum LoadChoice<T> {
    Loaded(T),
    /// No configuration was ever saved: start from the defaults.
    Defaults,
    Failed(String),
}

/// The configuration a start-up uses: the saved one when it loads; else the backup when
/// there is one and it loads (`backup` is `None` when there is no backup file); else the
/// defaults when nothing was saved yet; else the first error.
pub fn choose_loaded<T>(primary: Result<T, String>, backup: Option<Result<T, String>>, path_exists: bool) -> (r: LoadChoice<T>)
    ensures
        match primary {
            Ok(c) => r == LoadChoice::Loaded(c),
            Err(e) => match backup {
                Some(Ok(b)) => r == LoadChoice::Loaded(b),
                Some(Err(_)) => r == LoadChoice::<T>::Failed(e),
                None => if path_exists {
                    r == LoadChoice::<T>::Failed(e)
                } else {
                    r == LoadChoice::<T>::Defaults
                },
            },
        },
{
    match primary {
        Ok(c) => LoadChoice::Loaded(c),
        Err(e) => match backup {
            Some(Ok(b)) => LoadChoice::Loaded(b),
            Some(Err(_)) => LoadChoice::Failed(e),
            None => {
                if path_exists {
                    LoadChoice::Failed(e)
                } else {
                    LoadChoice::Defaults
                }
            },
        },
    }
}

} // verus!
