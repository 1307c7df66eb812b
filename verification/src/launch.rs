//! What a launch is put together from: the version to run, the artifacts of
//! its assets, the class path, the constants that fill the argument
//! templates, and the command line.

use crate::artifact::{ArtifactDescriptor, ArtifactModel};
use crate::template::ConstantsTable;
use crate::text::str_eq;
use vstd::prelude::*;
use vstd::string::*;

verus! {

/// One version that the version manifest offers.
pub struct Version {
    pub id: String,
    pub url: String,
    pub sha1: String,
}

/// The versions on offer, and the newest release and snapshot among them.
pub struct VersionManifest {
    pub latest_release: String,
    pub latest_snapshot: String,
    pub versions: Vec<Version>,
}

impl VersionManifest {
    /// Finds the first version with the identifier `id`.
    pub fn find_version_by_id(&self, id: &str) -> (found: Option<&Version>)
        ensures
            match found {
                Some(version) => exists|i: int|
                    0 <= i < self.versions.len() && *version == #[trigger] self.versions[i]
                        && version.id@ == id@ && forall|k: int|
                        0 <= k < i ==> (#[trigger] self.versions[k]).id@ != id@,
                None => forall|k: int|
                    0 <= k < self.versions.len() ==> (#[trigger] self.versions[k]).id@ != id@,
            },
    {
        let mut i: usize = 0;
        while i < self.versions.len()
            invariant
                i <= self.versions.len(),
                forall|k: int| 0 <= k < i ==> (#[trigger] self.versions[k]).id@ != id@,
            decreases self.versions.len() - i,
        {
            if str_eq(self.versions[i].id.as_str(), id) {
                return Some(&self.versions[i]);
            }
            i = i + 1;
        }
        None
    }
}

/// The texts one after the other, with the separator between each two.
pub open spec fn joined(parts: Seq<Seq<char>>, separator: Seq<char>) -> Seq<char>
    decreases parts.len(),
{
    if parts.len() == 0 {
        Seq::empty()
    } else if parts.len() == 1 {
        parts[0]
    } else {
        joined(parts.drop_last(), separator) + separator + parts.last()
    }
}

/// Joins the entries of a class path with the separator of the platform
/// between them.
pub fn join_classpath(entries: &Vec<String>, separator: &str) -> (classpath: String)
    ensures
        classpath@ == joined(entries.deep_view(), separator@),
{
    let mut classpath = String::new();
    let mut i: usize = 0;
    while i < entries.len()
        invariant
            i <= entries.len(),
            classpath@ == joined(entries.deep_view().take(i as int), separator@),
        decreases entries.len() - i,
    {
        proof {
            let upto = entries.deep_view().take(i + 1);
            assert(upto.drop_last() =~= entries.deep_view().take(i as int));
            assert(upto.last() == entries[i as int]@);
            if i == 0 {
                assert(Seq::<char>::empty() + entries[i as int]@ =~= entries[i as int]@);
            }
        }
        if i > 0 {
            classpath.append(separator);
        }
        classpath.append(entries[i].as_str());
        i = i + 1;
    }
    assert(entries.deep_view().take(entries.len() as int) =~= entries.deep_view());
    classpath
}

/// The command line of a launch: the arguments for the virtual machine,
/// then the main class, then the arguments for the game.
pub fn command_line(jvm_arguments: Vec<String>, main_class: String, game_arguments: Vec<String>) -> (line:
    Vec<String>)
    ensures
        line.deep_view() == jvm_arguments.deep_view() + seq![main_class@] + game_arguments.deep_view(),
{
    let mut line = jvm_arguments;
    let mut rest = game_arguments;
    line.push(main_class);
    line.append(&mut rest);
    assert(line.deep_view() =~= jvm_arguments.deep_view() + seq![main_class@]
        + game_arguments.deep_view());
    line
}

/// Where the objects of the assets are fetched from.
pub const ASSET_HOST: &'static str = "https://resources.download.minecraft.net/";

/// The first two characters of a hash, or all of it where it is shorter: the
/// directory that an asset object is kept in.
pub open spec fn hash_prefix(hash: Seq<char>) -> Seq<char> {
    if hash.len() >= 2 {
        hash.subrange(0, 2)
    } else {
        hash
    }
}

/// The address of the asset object with the hash `hash`.
pub open spec fn asset_address(hash: Seq<char>) -> Seq<char> {
    ASSET_HOST@ + hash_prefix(hash) + "/"@ + hash
}

/// The directory that the asset object with the hash `hash` is kept in: the
/// first two characters of the hash.
pub fn asset_prefix(hash: &str) -> (prefix: String)
    ensures
        prefix@ == hash_prefix(hash@),
{
    if hash.unicode_len() >= 2 {
        hash.substring_char(0, 2).to_owned()
    } else {
        hash.to_owned()
    }
}

/// The address that the asset object with the hash `hash` is fetched from.
pub fn asset_url(hash: &str) -> (url: String)
    ensures
        url@ == asset_address(hash@),
{
    let mut url = ASSET_HOST.to_owned();
    let prefix = asset_prefix(hash);
    url.append(prefix.as_str());
    url.append("/");
    url.append(hash);
    url
}

/// Describes the asset object with the hash `hash`: it is fetched from its
/// address, its content must have `hash` as its digest, and it is kept at
/// `destination`.
pub fn asset_descriptor(hash: &str, size: u64, destination: String) -> (descriptor: ArtifactDescriptor)
    ensures
        descriptor@ == (ArtifactModel {
            url: asset_address(hash@),
            digest: hash@,
            size,
            destination: destination@,
        }),
{
    ArtifactDescriptor::new(asset_url(hash), hash.to_owned(), size, destination)
}

/// The values of one run that the argument templates refer to.
pub struct LaunchSettings {
    pub player_name: String,
    pub version_name: String,
    pub game_directory: String,
    pub assets_root: String,
    pub assets_index_name: String,
    pub uuid: String,
    pub client_id: String,
    pub xuid: String,
    pub user_type: String,
    pub version_type: String,
    pub natives_directory: String,
    pub launcher_name: String,
    pub launcher_version: String,
    pub classpath: String,
}

/// The constants of a run, by the key that the templates use for each.
pub open spec fn constants_of(settings: LaunchSettings) -> Map<Seq<char>, Seq<char>> {
    Map::<Seq<char>, Seq<char>>::empty().insert("auth_player_name"@, settings.player_name@).insert(
        "version_name"@,
        settings.version_name@,
    ).insert("game_directory"@, settings.game_directory@).insert(
        "assets_root"@,
        settings.assets_root@,
    ).insert("assets_index_name"@, settings.assets_index_name@).insert(
        "auth_uuid"@,
        settings.uuid@,
    ).insert("clientid"@, settings.client_id@).insert("auth_xuid"@, settings.xuid@).insert(
        "user_type"@,
        settings.user_type@,
    ).insert("version_type"@, settings.version_type@).insert(
        "natives_directory"@,
        settings.natives_directory@,
    ).insert("launcher_name"@, settings.launcher_name@).insert(
        "launcher_version"@,
        settings.launcher_version@,
    ).insert("classpath"@, settings.classpath@)
}

/// Builds the table of constants of a run.
pub fn launch_constants(settings: &LaunchSettings) -> (constants: ConstantsTable)
    ensures
        constants@ == constants_of(*settings),
{
    let mut constants = ConstantsTable::new();
    constants.insert("auth_player_name", settings.player_name.as_str());
    constants.insert("version_name", settings.version_name.as_str());
    constants.insert("game_directory", settings.game_directory.as_str());
    constants.insert("assets_root", settings.assets_root.as_str());
    constants.insert("assets_index_name", settings.assets_index_name.as_str());
    constants.insert("auth_uuid", settings.uuid.as_str());
    constants.insert("clientid", settings.client_id.as_str());
    constants.insert("auth_xuid", settings.xuid.as_str());
    constants.insert("user_type", settings.user_type.as_str());
    constants.insert("version_type", settings.version_type.as_str());
    constants.insert("natives_directory", settings.natives_directory.as_str());
    constants.insert("launcher_name", settings.launcher_name.as_str());
    constants.insert("launcher_version", settings.launcher_version.as_str());
    constants.insert("classpath", settings.classpath.as_str());
    constants
}

} // verus!
