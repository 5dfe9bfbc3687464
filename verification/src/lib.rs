//! A launcher for OpenRCT2 and OpenLoco: every decision it makes, with the
//! disk, the network and the screen left to whoever carries the decisions out.

pub mod age;
pub mod asset;
pub mod behaviour_laws;
pub mod change_laws;
pub mod controller;
pub mod dirs;
pub mod disk;
pub mod download;
pub mod error;
pub mod extract;
pub mod game;
pub mod gameconfig;
pub mod gamedata;
pub mod gamedata_laws;
pub mod github;
pub mod install;
pub mod install_laws;
pub mod order;
pub mod outcome_laws;
pub mod path;
pub mod prefs;
pub mod recovery_laws;
pub mod release;
pub mod screen;
pub mod search;
pub mod selfupdate;
pub mod sequence;
pub mod side_by_side_laws;
pub mod size;
pub mod state;
pub mod state_laws;
pub mod store;
pub mod store_laws;
pub mod strings;
pub mod text;
pub mod text_laws;
pub mod text_lemmas;
pub mod timestamp;

pub use age::{now, Age};
pub use asset::{choose_asset, AssetArch, AssetPlatform, Candidate, HostArch};
pub use dirs::Dirs;
pub use download::{Progress, Status};
pub use error::{CoreError, StoreError, TagError};
pub use extract::extract;
pub use game::{sanitize_tag, version_file_in, GameId, RepositoryName};
pub use gamedata::{identify, installed_at, OriginalGame};
pub use github::{parse_releases, GitHub};
pub use install::{install, launch};
pub use release::{Channel, Download, Release};
pub use store::{DisableReport, Installed, Mode, VersionStore, UNKNOWN_TAG};
