//! The bundle that is deployed and the places on disk where it goes.

use vstd::prelude::*;
use crate::paths::{Location, LocationView};

verus! {

/// The name of the installation directory below the home directory:
/// `librarygrid`.
pub const APP_DIR: [u8; 11] = [108, 105, 98, 114, 97, 114, 121, 103, 114, 105, 100];

/// The name of the assets directory below the installation directory: `web`.
pub const ASSETS_DIR: [u8; 3] = [119, 101, 98];

/// The name of the version marker below the assets directory: `version.txt`.
pub const VERSION_FILE: [u8; 11] = [118, 101, 114, 115, 105, 111, 110, 46, 116, 120, 116];

/// The name of the configuration file below the installation directory:
/// `config.toml`.
pub const CONFIG_FILE: [u8; 11] = [99, 111, 110, 102, 105, 103, 46, 116, 111, 109, 108];

/// The payload that ships with the program: a compressed archive of the
/// assets, and the version of those assets.
#[derive(Debug, PartialEq, Eq)]
pub struct Bundle {
    pub archive: Vec<u8>,
    pub version: Vec<u8>,
}

/// What a [`Bundle`] stands for.
pub struct BundleView {
    pub archive: Seq<u8>,
    pub version: Seq<u8>,
}

impl View for Bundle {
    type V = BundleView;

    open spec fn view(&self) -> BundleView {
        BundleView { archive: self.archive@, version: self.version@ }
    }
}

/// The assets directory of an installation at `root`.
pub open spec fn assets_of(root: LocationView) -> LocationView {
    root.child(ASSETS_DIR@)
}

/// The version marker of an installation at `root`.
pub open spec fn marker_of(root: LocationView) -> LocationView {
    root.child(ASSETS_DIR@).child(VERSION_FILE@)
}

/// The configuration file of an installation at `root`.
pub open spec fn config_of(root: LocationView) -> LocationView {
    root.child(CONFIG_FILE@)
}

/// Where an installation lives.
#[derive(Debug, PartialEq, Eq)]
pub struct Layout {
    pub root: Location,
}

impl View for Layout {
    type V = LocationView;

    open spec fn view(&self) -> LocationView {
        self.root@
    }
}

impl Layout {
    /// The installation of the user whose home directory is `home`.
    pub fn under_home(home: Vec<u8>) -> (r: Layout)
        ensures
            r@ == (LocationView { base: home@, parts: seq![APP_DIR@] }),
    {
        let root = Location::new(home).child(APP_DIR.as_slice());
        assert(root@.parts =~= seq![APP_DIR@]);
        Layout { root }
    }

    /// The installation directory.
    pub fn root(&self) -> (r: Location)
        ensures
            r@ == self@,
    {
        self.root.clone()
    }

    /// The directory that holds the assets.
    pub fn assets_dir(&self) -> (r: Location)
        ensures
            r@ == assets_of(self@),
    {
        self.root.child(ASSETS_DIR.as_slice())
    }

    /// The file that holds the version of the installed assets.
    pub fn version_marker(&self) -> (r: Location)
        ensures
            r@ == marker_of(self@),
    {
        self.root.child(ASSETS_DIR.as_slice()).child(VERSION_FILE.as_slice())
    }

    /// The configuration file.
    pub fn config_file(&self) -> (r: Location)
        ensures
            r@ == config_of(self@),
    {
        self.root.child(CONFIG_FILE.as_slice())
    }
}

} // verus!
