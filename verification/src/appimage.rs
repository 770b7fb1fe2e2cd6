//! Building self-contained images of an installed game.
//!
//! The packaging itself — copying trees, writing the launch script and
//! invoking the image tool — is plain I/O performed by the surrounding
//! application.  The record templates and the shortcut filter are
//! computed here.

use vstd::prelude::*;
use crate::capsule::{CapsuleMetadata, InstallState};
use crate::paths::push_all;
use crate::text::{contains_bytes, contains_seq, lower, to_lower};
use vstd::string::StringSliceAdditionalSpecFns;

verus! {

/// Builds a self-contained image from a game source tree.
pub struct AppImageBuilder {
    pub source_path: Vec<u8>,
    pub output_dir: Vec<u8>,
    pub game_name: Vec<u8>,
}

impl AppImageBuilder {
    /// A builder over a source tree, an output directory and a game
    /// name.
    pub fn new(source_path: Vec<u8>, output_dir: Vec<u8>, game_name: Vec<u8>) -> (r:
        AppImageBuilder)
        ensures
            r.source_path@ == source_path@,
            r.output_dir@ == output_dir@,
            r.game_name@ == game_name@,
    {
        AppImageBuilder { source_path, output_dir, game_name }
    }

    /// The record template packaged with an image: the main executable
    /// lives under the image's `game` directory, and the capsule is
    /// already installed.
    pub fn create_metadata(&self, main_exe: &[u8], launch_args: &[u8]) -> (r: CapsuleMetadata)
        ensures
            r.name@ == self.game_name@,
            r.executables.main.path@ == "game/".spec_bytes() + main_exe@,
            r.executables.main.args@ == launch_args@,
            r.install_state == InstallState::Installed,
    {
        let mut m = CapsuleMetadata::default_named(
            crate::text::subvec(self.game_name.as_slice(), 0, self.game_name.len()),
        );
        proof {
            assert(m.name@ =~= self.game_name@);
        }
        let mut path: Vec<u8> = Vec::new();
        push_all(&mut path, "game/".as_bytes());
        push_all(&mut path, main_exe);
        m.executables.main.path = path;
        m.executables.main.args = crate::text::subvec(launch_args, 0, launch_args.len());
        proof {
            assert(m.executables.main.args@ =~= launch_args@);
        }
        m.install_state = InstallState::Installed;
        m
    }

    /// The same record template; the recovered shortcut names are
    /// accepted for inspection but do not change the record.
    pub fn create_metadata_with_shortcuts(
        &self,
        main_exe: &[u8],
        launch_args: &[u8],
        shortcuts: &Vec<Vec<u8>>,
    ) -> (r: CapsuleMetadata)
        ensures
            r.name@ == self.game_name@,
            r.executables.main.path@ == "game/".spec_bytes() + main_exe@,
            r.executables.main.args@ == launch_args@,
            r.install_state == InstallState::Installed,
    {
        let _ = shortcuts;
        self.create_metadata(main_exe, launch_args)
    }
}

/// A shortcut worth keeping when scanning a finished installation:
/// not an uninstaller, a readme or a website link.
pub open spec fn is_wanted_shortcut(name: Seq<u8>) -> bool {
    &&& !contains_seq(lower(name), "uninstall".spec_bytes())
    &&& !contains_seq(lower(name), "readme".spec_bytes())
    &&& !contains_seq(lower(name), "website".spec_bytes())
}

/// Should this shortcut name be kept?
pub fn is_wanted_shortcut_name(name: &[u8]) -> (r: bool)
    ensures
        r == is_wanted_shortcut(name@),
{
    let low = to_lower(name);
    !contains_bytes(low.as_slice(), "uninstall".as_bytes()) && !contains_bytes(
        low.as_slice(),
        "readme".as_bytes(),
    ) && !contains_bytes(low.as_slice(), "website".as_bytes())
}

} // verus!
