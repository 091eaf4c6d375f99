//! Where directories are, by the conventions of each platform.
//!
//! What the environment says is handed in as text; nothing here reads it. Where it says nothing,
//! there is a default, and in the end the temporary directory.

use crate::path::lexical::{is_absolute, join, joined, rooted};
use crate::path::windows::{absolute, join as join_windows, joined as joined_windows};
use crate::runtime::log::DEFAULT_FILE_NAME;
use crate::text::{
    are_parts, chars_of, find_char, find_from, parts, replace, replaced, same_chars, split, sub_chars,
    the_first_place_is_found, to_string, trimmed, trimmed_chars, white_space, white_space_around_is_trimmed,
};
use vstd::prelude::*;

verus! {

/// Which directory is meant.
#[derive(Debug, Clone, Copy, PartialEq, Eq, Hash, Structural)]
pub enum BaseDirectory {
    /// The root of what belongs to the application.
    AppRoot,
    AppData,
    AppConfig,
    /// May be emptied at any time.
    AppCache,
    AppLog,
    Home,
    Temp,
    Desktop,
    Document,
    Download,
    Picture,
    Video,
    Audio,
    /// Where the program itself is.
    Executable,
}

impl BaseDirectory {
    /// Every directory.
    pub fn all() -> (all: [BaseDirectory; 14])
        ensures
            forall|base: BaseDirectory| #[trigger] all@.contains(base),
            all@.no_duplicates(),
    {
        let all = [
            BaseDirectory::AppRoot,
            BaseDirectory::AppData,
            BaseDirectory::AppConfig,
            BaseDirectory::AppCache,
            BaseDirectory::AppLog,
            BaseDirectory::Home,
            BaseDirectory::Temp,
            BaseDirectory::Desktop,
            BaseDirectory::Document,
            BaseDirectory::Download,
            BaseDirectory::Picture,
            BaseDirectory::Video,
            BaseDirectory::Audio,
            BaseDirectory::Executable,
        ];
        proof {
            assert forall|base: BaseDirectory| #[trigger] all@.contains(base) by {
                match base {
                    BaseDirectory::AppRoot => assert(all@[0] == base),
                    BaseDirectory::AppData => assert(all@[1] == base),
                    BaseDirectory::AppConfig => assert(all@[2] == base),
                    BaseDirectory::AppCache => assert(all@[3] == base),
                    BaseDirectory::AppLog => assert(all@[4] == base),
                    BaseDirectory::Home => assert(all@[5] == base),
                    BaseDirectory::Temp => assert(all@[6] == base),
                    BaseDirectory::Desktop => assert(all@[7] == base),
                    BaseDirectory::Document => assert(all@[8] == base),
                    BaseDirectory::Download => assert(all@[9] == base),
                    BaseDirectory::Picture => assert(all@[10] == base),
                    BaseDirectory::Video => assert(all@[11] == base),
                    BaseDirectory::Audio => assert(all@[12] == base),
                    BaseDirectory::Executable => assert(all@[13] == base),
                }
            }
        }
        all
    }
}

/// Whose conventions hold.
#[derive(Debug, Clone, Copy, PartialEq, Eq, Structural)]
pub enum Platform {
    Windows,
    Linux,
    Macos,
    /// Any other: only the temporary directory can be relied on.
    Other,
}

/// What the environment says. What is not set is none.
#[derive(Debug)]
pub struct Surroundings {
    /// The home directory, as [`home_dir_on`] gives it.
    pub home: Option<String>,
    /// The temporary directory, as [`temp_dir_on`] gives it.
    pub temp: String,
    /// `APPDATA`.
    pub roaming: Option<String>,
    /// `LOCALAPPDATA`.
    pub local: Option<String>,
    /// `XDG_DATA_HOME`.
    pub data_home: Option<String>,
    /// `XDG_CONFIG_HOME`.
    pub config_home: Option<String>,
    /// `XDG_CACHE_HOME`.
    pub cache_home: Option<String>,
    /// `XDG_STATE_HOME`.
    pub state_home: Option<String>,
    /// The text of the file that [`user_dirs_file`] names, if it can be read.
    pub user_dirs: Option<String>,
    /// The directory of the program.
    pub exe: Option<String>,
}

/// The characters of a text that may be missing.
pub open spec fn seen(text: Option<String>) -> Option<Seq<char>> {
    match text {
        Some(text) => Some(text@),
        None => None,
    }
}

/// The characters of a text that may be missing.
pub open spec fn seen_str(text: Option<&str>) -> Option<Seq<char>> {
    match text {
        Some(text) => Some(text@),
        None => None,
    }
}

fn copied(text: &Option<String>) -> (copy: Option<String>)
    ensures
        seen(copy) == seen(*text),
{
    match text {
        Some(text) => Some(text.as_str().to_owned()),
        None => None,
    }
}

/// The home directory: the first variable that is set decides, and an empty one says nothing.
pub open spec fn home_from(home: Option<Seq<char>>, profile: Option<Seq<char>>) -> Option<Seq<char>> {
    let said = if home is Some {
        home
    } else {
        profile
    };
    match said {
        Some(said) => if said.len() == 0 {
            None
        } else {
            Some(said)
        },
        None => None,
    }
}

/// The home directory, from `HOME` and `USERPROFILE`.
pub fn home_dir(home: Option<&str>, profile: Option<&str>) -> (result: Option<String>)
    ensures
        seen(result) == home_from(seen_str(home), seen_str(profile)),
{
    let said = match home {
        Some(home) => Some(home),
        None => profile,
    };
    match said {
        Some(said) => {
            let chars = chars_of(said);
            if chars.len() == 0 {
                None
            } else {
                Some(said.to_owned())
            }
        },
        None => None,
    }
}

/// The home directory, by the variable that is usual on the platform: `USERPROFILE` on Windows, `HOME`
/// elsewhere. Where it is not set, the other one is asked.
pub open spec fn home_on(platform: Platform, home: Option<Seq<char>>, profile: Option<Seq<char>>) -> Option<
    Seq<char>,
> {
    if platform == Platform::Windows {
        home_from(profile, home)
    } else {
        home_from(home, profile)
    }
}

/// The home directory, from `HOME` and `USERPROFILE`, as the platform has it.
pub fn home_dir_on(platform: Platform, home: Option<&str>, profile: Option<&str>) -> (result: Option<String>)
    ensures
        seen(result) == home_on(platform, seen_str(home), seen_str(profile)),
{
    if platform == Platform::Windows {
        home_dir(profile, home)
    } else {
        home_dir(home, profile)
    }
}

/// The temporary directory: the first variable that is set decides; an empty one, or none, leaves the
/// default.
pub open spec fn temp_from(
    temp: Option<Seq<char>>,
    tmp: Option<Seq<char>>,
    tmpdir: Option<Seq<char>>,
    default: Seq<char>,
) -> Seq<char> {
    let said = if temp is Some {
        temp
    } else if tmp is Some {
        tmp
    } else {
        tmpdir
    };
    match said {
        Some(said) => if said.len() == 0 {
            default
        } else {
            said
        },
        None => default,
    }
}

/// The temporary directory, from `TEMP`, `TMP` and `TMPDIR`.
pub fn temp_dir(temp: Option<&str>, tmp: Option<&str>, tmpdir: Option<&str>, default: &str) -> (result:
    String)
    ensures
        result@ == temp_from(seen_str(temp), seen_str(tmp), seen_str(tmpdir), default@),
{
    let said = match temp {
        Some(temp) => Some(temp),
        None => match tmp {
            Some(tmp) => Some(tmp),
            None => tmpdir,
        },
    };
    match said {
        Some(said) => {
            let chars = chars_of(said);
            if chars.len() == 0 {
                default.to_owned()
            } else {
                said.to_owned()
            }
        },
        None => default.to_owned(),
    }
}

/// The temporary directory, by the variable that is usual on the platform: `TEMP`, then `TMP`, on
/// Windows, `TMPDIR` elsewhere. Where none of these is set, the others are asked.
pub open spec fn temp_on(
    platform: Platform,
    temp: Option<Seq<char>>,
    tmp: Option<Seq<char>>,
    tmpdir: Option<Seq<char>>,
    default: Seq<char>,
) -> Seq<char> {
    if platform == Platform::Windows {
        temp_from(temp, tmp, tmpdir, default)
    } else {
        temp_from(tmpdir, temp, tmp, default)
    }
}

/// The temporary directory, from `TEMP`, `TMP` and `TMPDIR`, as the platform has it.
pub fn temp_dir_on(
    platform: Platform,
    temp: Option<&str>,
    tmp: Option<&str>,
    tmpdir: Option<&str>,
    default: &str,
) -> (result: String)
    ensures
        result@ == temp_on(platform, seen_str(temp), seen_str(tmp), seen_str(tmpdir), default@),
{
    if platform == Platform::Windows {
        temp_dir(temp, tmp, tmpdir, default)
    } else {
        temp_dir(tmpdir, temp, tmp, default)
    }
}

/// The directories of an application.
pub struct AppDirsView {
    pub root: Seq<char>,
    pub data: Seq<char>,
    pub config: Seq<char>,
    pub cache: Seq<char>,
    pub logs: Seq<char>,
}

/// The directories of a user.
pub struct UserDirsView {
    pub desktop: Option<Seq<char>>,
    pub document: Option<Seq<char>>,
    pub download: Option<Seq<char>>,
    pub picture: Option<Seq<char>>,
    pub video: Option<Seq<char>>,
    pub audio: Option<Seq<char>>,
}

struct AppDirs {
    root: String,
    data: String,
    config: String,
    cache: String,
    logs: String,
}

struct UserDirs {
    desktop: Option<String>,
    document: Option<String>,
    download: Option<String>,
    picture: Option<String>,
    video: Option<String>,
    audio: Option<String>,
}

impl View for AppDirs {
    type V = AppDirsView;

    closed spec fn view(&self) -> AppDirsView {
        AppDirsView {
            root: self.root@,
            data: self.data@,
            config: self.config@,
            cache: self.cache@,
            logs: self.logs@,
        }
    }
}

impl View for UserDirs {
    type V = UserDirsView;

    closed spec fn view(&self) -> UserDirsView {
        UserDirsView {
            desktop: seen(self.desktop),
            document: seen(self.document),
            download: seen(self.download),
            picture: seen(self.picture),
            video: seen(self.video),
            audio: seen(self.audio),
        }
    }
}

/// Everything below one root.
pub open spec fn under_root(root: Seq<char>) -> AppDirsView {
    AppDirsView {
        root,
        data: joined(root, "data"@),
        config: joined(root, "config"@),
        cache: joined(root, "cache"@),
        logs: joined(root, "logs"@),
    }
}

/// Everything below one root, on Windows.
pub open spec fn under_windows_root(root: Seq<char>) -> AppDirsView {
    AppDirsView {
        root,
        data: joined_windows(root, "data"@),
        config: joined_windows(root, "config"@),
        cache: joined_windows(root, "cache"@),
        logs: joined_windows(root, "logs"@),
    }
}

/// A directory that the environment may name, or else one below the home directory.
pub open spec fn said_or(said: Option<Seq<char>>, home: Seq<char>, default: Seq<char>) -> Seq<char> {
    match said {
        Some(said) => said,
        None => joined(home, default),
    }
}

/// The directories of an application on Windows: what travels with the user goes to the roaming part,
/// cache and log to the local part.
pub open spec fn windows_app_dirs(app_id: Seq<char>, around: Surroundings) -> AppDirsView {
    let roaming = match around.roaming {
        Some(roaming) => Some(roaming@),
        None => match around.home {
            Some(home) => Some(joined_windows(joined_windows(home@, "AppData"@), "Roaming"@)),
            None => None,
        },
    };
    let local = match around.local {
        Some(local) => Some(local@),
        None => match around.home {
            Some(home) => Some(joined_windows(joined_windows(home@, "AppData"@), "Local"@)),
            None => None,
        },
    };
    match (roaming, local) {
        (Some(roaming), Some(local)) => {
            let root = joined_windows(roaming, app_id);
            let local_app = joined_windows(local, app_id);
            AppDirsView {
                root,
                data: joined_windows(root, "data"@),
                config: joined_windows(root, "config"@),
                cache: joined_windows(local_app, "cache"@),
                logs: joined_windows(local_app, "logs"@),
            }
        },
        _ => under_windows_root(
            joined_windows(joined_windows(around.temp@, "lxlake"@), app_id),
        ),
    }
}

/// The directories of an application where each kind of file has a place of its own.
pub open spec fn linux_app_dirs(app_id: Seq<char>, home: Seq<char>, around: Surroundings) -> AppDirsView {
    let root = joined(said_or(seen(around.data_home), home, ".local/share"@), app_id);
    AppDirsView {
        root,
        data: root,
        config: joined(said_or(seen(around.config_home), home, ".config"@), app_id),
        cache: joined(said_or(seen(around.cache_home), home, ".cache"@), app_id),
        logs: joined(
            joined(said_or(seen(around.state_home), home, ".local/state"@), app_id),
            "logs"@,
        ),
    }
}

/// The directories of an application in the library of the user.
pub open spec fn macos_app_dirs(app_id: Seq<char>, home: Seq<char>) -> AppDirsView {
    let root = joined(joined(home, "Library/Application Support"@), app_id);
    AppDirsView {
        root,
        data: root,
        config: root,
        cache: joined(joined(home, "Library/Caches"@), app_id),
        logs: joined(joined(home, "Library/Logs"@), app_id),
    }
}

/// The directories of an application. Without a home directory they go below the temporary one.
pub open spec fn app_dirs_of(app_id: Seq<char>, platform: Platform, around: Surroundings) -> AppDirsView {
    let lost = under_root(joined(joined(around.temp@, "lxlake"@), app_id));
    match platform {
        Platform::Windows => windows_app_dirs(app_id, around),
        Platform::Linux => match around.home {
            Some(home) => linux_app_dirs(app_id, home@, around),
            None => lost,
        },
        Platform::Macos => match around.home {
            Some(home) => macos_app_dirs(app_id, home@),
            None => lost,
        },
        Platform::Other => lost,
    }
}

fn below(root: String) -> (dirs: AppDirs)
    ensures
        dirs@ == under_root(root@),
{
    let data = join(root.as_str(), "data");
    let config = join(root.as_str(), "config");
    let cache = join(root.as_str(), "cache");
    let logs = join(root.as_str(), "logs");
    AppDirs { root, data, config, cache, logs }
}

fn below_windows(root: String) -> (dirs: AppDirs)
    ensures
        dirs@ == under_windows_root(root@),
{
    let data = join_windows(root.as_str(), "data");
    let config = join_windows(root.as_str(), "config");
    let cache = join_windows(root.as_str(), "cache");
    let logs = join_windows(root.as_str(), "logs");
    AppDirs { root, data, config, cache, logs }
}

fn either(said: &Option<String>, home: &str, default: &str) -> (result: String)
    ensures
        result@ == said_or(seen(*said), home@, default@),
{
    match said {
        Some(said) => said.as_str().to_owned(),
        None => join(home, default),
    }
}

fn windows_part(said: &Option<String>, home: &Option<String>, part: &str) -> (result: Option<String>)
    ensures
        seen(result) == match *said {
            Some(said) => Some(said@),
            None => match *home {
                Some(home) => Some(joined_windows(joined_windows(home@, "AppData"@), part@)),
                None => None,
            },
        },
{
    match said {
        Some(said) => Some(said.as_str().to_owned()),
        None => match home {
            Some(home) => {
                let app_data = join_windows(home.as_str(), "AppData");
                Some(join_windows(app_data.as_str(), part))
            },
            None => None,
        },
    }
}

fn app_dirs(app_id: &str, platform: Platform, around: &Surroundings) -> (dirs: AppDirs)
    ensures
        dirs@ == app_dirs_of(app_id@, platform, *around),
{
    let lost = join(join(around.temp.as_str(), "lxlake").as_str(), app_id);
    match platform {
        Platform::Windows => {
            let roaming = windows_part(&around.roaming, &around.home, "Roaming");
            let local = windows_part(&around.local, &around.home, "Local");
            match (roaming, local) {
                (Some(roaming), Some(local)) => {
                    let root = join_windows(roaming.as_str(), app_id);
                    let local_app = join_windows(local.as_str(), app_id);
                    AppDirs {
                        data: join_windows(root.as_str(), "data"),
                        config: join_windows(root.as_str(), "config"),
                        root,
                        cache: join_windows(local_app.as_str(), "cache"),
                        logs: join_windows(local_app.as_str(), "logs"),
                    }
                },
                _ => {
                    let temp = join_windows(around.temp.as_str(), "lxlake");
                    below_windows(join_windows(temp.as_str(), app_id))
                },
            }
        },
        Platform::Linux => match &around.home {
            Some(home) => {
                let home = home.as_str();
                let data = either(&around.data_home, home, ".local/share");
                let config = either(&around.config_home, home, ".config");
                let cache = either(&around.cache_home, home, ".cache");
                let state = either(&around.state_home, home, ".local/state");
                let state_app = join(state.as_str(), app_id);
                let root = join(data.as_str(), app_id);
                AppDirs {
                    data: root.as_str().to_owned(),
                    config: join(config.as_str(), app_id),
                    cache: join(cache.as_str(), app_id),
                    logs: join(state_app.as_str(), "logs"),
                    root,
                }
            },
            None => below(lost),
        },
        Platform::Macos => match &around.home {
            Some(home) => {
                let support = join(home.as_str(), "Library/Application Support");
                let caches = join(home.as_str(), "Library/Caches");
                let logs = join(home.as_str(), "Library/Logs");
                let root = join(support.as_str(), app_id);
                AppDirs {
                    data: root.as_str().to_owned(),
                    config: root.as_str().to_owned(),
                    root,
                    cache: join(caches.as_str(), app_id),
                    logs: join(logs.as_str(), app_id),
                }
            },
            None => below(lost),
        },
        Platform::Other => below(lost),
    }
}

// ---------------------------------------------------------------------------------------------
// The directories of a user.

/// The file that names the directories of a user on Linux.
pub open spec fn user_dirs_file_of(config_home: Option<Seq<char>>, home: Seq<char>) -> Seq<char> {
    joined(said_or(config_home, home, ".config"@), "user-dirs.dirs"@)
}

/// The file that names the directories of a user on Linux.
pub fn user_dirs_file(config_home: Option<&str>, home: &str) -> (path: String)
    ensures
        path@ == user_dirs_file_of(seen_str(config_home), home@),
{
    let base = match config_home {
        Some(config_home) => config_home.to_owned(),
        None => join(home, ".config"),
    };
    join(base.as_str(), "user-dirs.dirs")
}

/// The text without the quotes at its two ends.
pub open spec fn unquoted(s: Seq<char>) -> Seq<char>
    decreases s.len(),
{
    if s.len() > 0 && s[0] == '"' {
        unquoted(s.skip(1))
    } else {
        unquoted_tail(s)
    }
}

/// The text without the quotes at its end.
pub open spec fn unquoted_tail(s: Seq<char>) -> Seq<char>
    decreases s.len(),
{
    if s.len() > 0 && s.last() == '"' {
        unquoted_tail(s.drop_last())
    } else {
        s
    }
}

/// What a line names, and as what: the part before the first `=`, and the part behind it without
/// quotes and with the home directory filled in. Empty lines, comments and lines without `=` name
/// nothing.
pub open spec fn line_entry(line: Seq<char>, home: Seq<char>) -> Option<(Seq<char>, Seq<char>)> {
    let text = trimmed(line);
    let at = find_from(text, '=', 0);
    if text.len() == 0 || text[0] == '#' || at >= text.len() {
        None
    } else {
        Some(
            (
                trimmed(text.take(at)),
                replaced(
                    unquoted(trimmed(text.skip(at + 1))),
                    0,
                    seq!['$', 'H', 'O', 'M', 'E'],
                    home,
                ),
            ),
        )
    }
}

/// What the lines name under a key: the last that names it counts.
pub open spec fn looked_up(lines: Seq<Seq<char>>, key: Seq<char>, home: Seq<char>) -> Option<Seq<char>>
    decreases lines.len(),
{
    if lines.len() == 0 {
        None
    } else {
        match line_entry(lines.last(), home) {
            Some((name, value)) => if name == key {
                Some(value)
            } else {
                looked_up(lines.drop_last(), key, home)
            },
            None => looked_up(lines.drop_last(), key, home),
        }
    }
}

/// A directory of a user on Linux: what the file names, or else the one of the usual name.
pub open spec fn linux_user_dir(
    text: Option<Seq<char>>,
    home: Seq<char>,
    key: Seq<char>,
    default: Seq<char>,
) -> Seq<char> {
    let named = match text {
        Some(text) => looked_up(parts(text, '\n'), key, home),
        None => None,
    };
    match named {
        Some(named) => named,
        None => joined(home, default),
    }
}

/// The directories of a user. Without a home directory there are none.
pub open spec fn user_dirs_of(platform: Platform, around: Surroundings) -> UserDirsView {
    let none = UserDirsView {
        desktop: None,
        document: None,
        download: None,
        picture: None,
        video: None,
        audio: None,
    };
    match around.home {
        None => none,
        Some(home) => {
            let home = home@;
            match platform {
                Platform::Windows => UserDirsView {
                    desktop: Some(joined_windows(home, "Desktop"@)),
                    document: Some(joined_windows(home, "Documents"@)),
                    download: Some(joined_windows(home, "Downloads"@)),
                    picture: Some(joined_windows(home, "Pictures"@)),
                    video: Some(joined_windows(home, "Videos"@)),
                    audio: Some(joined_windows(home, "Music"@)),
                },
                Platform::Macos => UserDirsView {
                    desktop: Some(joined(home, "Desktop"@)),
                    document: Some(joined(home, "Documents"@)),
                    download: Some(joined(home, "Downloads"@)),
                    picture: Some(joined(home, "Pictures"@)),
                    video: Some(joined(home, "Movies"@)),
                    audio: Some(joined(home, "Music"@)),
                },
                Platform::Linux => {
                    let text = seen(around.user_dirs);
                    UserDirsView {
                        desktop: Some(
                            linux_user_dir(text, home, "XDG_DESKTOP_DIR"@, "Desktop"@),
                        ),
                        document: Some(
                            linux_user_dir(text, home, "XDG_DOCUMENTS_DIR"@, "Documents"@),
                        ),
                        download: Some(
                            linux_user_dir(text, home, "XDG_DOWNLOAD_DIR"@, "Downloads"@),
                        ),
                        picture: Some(
                            linux_user_dir(text, home, "XDG_PICTURES_DIR"@, "Pictures"@),
                        ),
                        video: Some(linux_user_dir(text, home, "XDG_VIDEOS_DIR"@, "Videos"@)),
                        audio: Some(linux_user_dir(text, home, "XDG_MUSIC_DIR"@, "Music"@)),
                    }
                },
                Platform::Other => none,
            }
        },
    }
}

fn unquote(chars: &[char]) -> (result: Vec<char>)
    ensures
        result@ == unquoted(chars@),
{
    let n: usize = chars.len();
    let mut lo: usize = 0;
    assert(chars@.skip(0) =~= chars@);
    while lo < n && chars[lo] == '"'
        invariant
            lo <= n == chars@.len(),
            unquoted(chars@) == unquoted(chars@.skip(lo as int)),
        decreases n - lo,
    {
        proof {
            assert(chars@.skip(lo as int)[0] == chars@[lo as int]);
            assert(chars@.skip(lo as int).skip(1) =~= chars@.skip(lo + 1));
        }
        lo += 1;
    }
    proof {
        if lo < n {
            assert(chars@.skip(lo as int)[0] == chars@[lo as int]);
        }
        assert(unquoted(chars@) == unquoted_tail(chars@.skip(lo as int)));
        assert(chars@.skip(lo as int) =~= chars@.subrange(lo as int, n as int));
    }
    let mut hi: usize = n;
    while lo < hi && chars[hi - 1] == '"'
        invariant
            lo <= hi <= n == chars@.len(),
            unquoted(chars@) == unquoted_tail(chars@.subrange(lo as int, hi as int)),
        decreases hi - lo,
    {
        proof {
            let here = chars@.subrange(lo as int, hi as int);
            assert(here.last() == chars@[hi - 1]);
            assert(here.drop_last() =~= chars@.subrange(lo as int, hi - 1));
        }
        hi -= 1;
    }
    proof {
        let here = chars@.subrange(lo as int, hi as int);
        if lo < hi {
            assert(here.last() == chars@[hi - 1]);
        }
    }
    sub_chars(chars, lo, hi)
}

fn parse_line(line: &[char], home: &[char]) -> (entry: Option<(Vec<char>, Vec<char>)>)
    ensures
        entry is Some == line_entry(line@, home@) is Some,
        entry matches Some((key, value)) ==> line_entry(line@, home@) == Some((key@, value@)),
{
    let text = trimmed_chars(line);
    if text.len() == 0 || text[0] == '#' {
        return None;
    }
    let at = find_char(text.as_slice(), '=');
    if at >= text.len() {
        return None;
    }
    let before = sub_chars(text.as_slice(), 0, at);
    let behind = sub_chars(text.as_slice(), at + 1, text.len());
    let key = trimmed_chars(before.as_slice());
    let value = trimmed_chars(behind.as_slice());
    let value = unquote(value.as_slice());
    let word = ['$', 'H', 'O', 'M', 'E'];
    let value = replace(value.as_slice(), word.as_slice(), home);
    proof {
        assert(before@ =~= text@.take(at as int));
        assert(behind@ =~= text@.skip(at + 1));
        assert(word@ =~= seq!['$', 'H', 'O', 'M', 'E']);
    }
    Some((key, value))
}

/// What a file names under a key.
pub open spec fn named_in(text: Seq<char>, key: Seq<char>, home: Seq<char>) -> Option<Seq<char>> {
    looked_up(parts(text, '\n'), key, home)
}

/// What a file of `KEY="value"` lines names under a key, with the home directory filled in.
pub fn xdg_user_dir(text: &str, key: &str, home: &str) -> (result: Option<String>)
    ensures
        seen(result) == named_in(text@, key@, home@),
{
    let chars = chars_of(text);
    let lines = split(chars.as_slice(), '\n');
    let wanted = chars_of(key);
    let own = chars_of(home);
    let ghost all = parts(text@, '\n');
    let mut i: usize = lines.len();
    assert(all.take(i as int) =~= all);
    while i > 0
        invariant
            i <= lines@.len(),
            are_parts(lines@, all),
            all == parts(text@, '\n'),
            wanted@ == key@,
            own@ == home@,
            looked_up(all, key@, home@) == looked_up(all.take(i as int), key@, home@),
        decreases i,
    {
        proof {
            assert(all.take(i as int).drop_last() =~= all.take(i - 1));
            assert(all.take(i as int).last() == all[i - 1]);
            assert(lines@[i - 1]@ == all[i - 1]);
        }
        match parse_line(lines[i - 1].as_slice(), own.as_slice()) {
            Some((name, value)) => {
                if same_chars(name.as_slice(), wanted.as_slice()) {
                    return Some(to_string(value.as_slice()));
                }
            },
            None => {},
        }
        i -= 1;
    }
    assert(all.take(0) =~= Seq::<Seq<char>>::empty());
    None
}

fn pick(text: &Option<String>, home: &str, key: &str, default: &str) -> (result: Option<String>)
    ensures
        seen(result) == Some(linux_user_dir(seen(*text), home@, key@, default@)),
{
    let named = match text {
        Some(text) => xdg_user_dir(text.as_str(), key, home),
        None => None,
    };
    match named {
        Some(named) => Some(named),
        None => Some(join(home, default)),
    }
}

fn no_user_dirs() -> (dirs: UserDirs)
    ensures
        dirs@ == (UserDirsView {
            desktop: None,
            document: None,
            download: None,
            picture: None,
            video: None,
            audio: None,
        }),
{
    UserDirs {
        desktop: None,
        document: None,
        download: None,
        picture: None,
        video: None,
        audio: None,
    }
}

fn user_dirs(platform: Platform, around: &Surroundings) -> (dirs: UserDirs)
    ensures
        dirs@ == user_dirs_of(platform, *around),
{
    match &around.home {
        None => no_user_dirs(),
        Some(home) => {
            let home = home.as_str();
            match platform {
                Platform::Windows => UserDirs {
                    desktop: Some(join_windows(home, "Desktop")),
                    document: Some(join_windows(home, "Documents")),
                    download: Some(join_windows(home, "Downloads")),
                    picture: Some(join_windows(home, "Pictures")),
                    video: Some(join_windows(home, "Videos")),
                    audio: Some(join_windows(home, "Music")),
                },
                Platform::Macos => UserDirs {
                    desktop: Some(join(home, "Desktop")),
                    document: Some(join(home, "Documents")),
                    download: Some(join(home, "Downloads")),
                    picture: Some(join(home, "Pictures")),
                    video: Some(join(home, "Movies")),
                    audio: Some(join(home, "Music")),
                },
                Platform::Linux => {
                    let text = &around.user_dirs;
                    UserDirs {
                        desktop: pick(text, home, "XDG_DESKTOP_DIR", "Desktop"),
                        document: pick(text, home, "XDG_DOCUMENTS_DIR", "Documents"),
                        download: pick(text, home, "XDG_DOWNLOAD_DIR", "Downloads"),
                        picture: pick(text, home, "XDG_PICTURES_DIR", "Pictures"),
                        video: pick(text, home, "XDG_VIDEOS_DIR", "Videos"),
                        audio: pick(text, home, "XDG_MUSIC_DIR", "Music"),
                    }
                },
                Platform::Other => no_user_dirs(),
            }
        },
    }
}

// ---------------------------------------------------------------------------------------------
// All of it.

/// Every directory of an application and of its user.
#[derive(Debug)]
pub struct Paths {
    pub platform: Platform,
    pub root: String,
    pub data: String,
    pub config: String,
    pub cache: String,
    pub logs: String,
    pub temp: String,
    pub home: Option<String>,
    pub desktop: Option<String>,
    pub document: Option<String>,
    pub download: Option<String>,
    pub picture: Option<String>,
    pub video: Option<String>,
    pub audio: Option<String>,
    pub exe: Option<String>,
}

/// Whether a path is complete by itself.
pub open spec fn complete(platform: Platform, path: Seq<char>) -> bool {
    if platform == Platform::Windows {
        absolute(path)
    } else {
        rooted(path)
    }
}

/// A path taken from a directory.
pub open spec fn joined_on(platform: Platform, base: Seq<char>, path: Seq<char>) -> Seq<char> {
    if platform == Platform::Windows {
        joined_windows(base, path)
    } else {
        joined(base, path)
    }
}

/// A path taken from a directory.
pub fn join_on(platform: Platform, base: &str, path: &str) -> (result: String)
    ensures
        result@ == joined_on(platform, base@, path@),
{
    if platform == Platform::Windows {
        join_windows(base, path)
    } else {
        join(base, path)
    }
}

impl Paths {
    /// The directory that is meant, if it is known.
    pub open spec fn place(&self, base: BaseDirectory) -> Option<Seq<char>> {
        match base {
            BaseDirectory::AppRoot => Some(self.root@),
            BaseDirectory::AppData => Some(self.data@),
            BaseDirectory::AppConfig => Some(self.config@),
            BaseDirectory::AppCache => Some(self.cache@),
            BaseDirectory::AppLog => Some(self.logs@),
            BaseDirectory::Temp => Some(self.temp@),
            BaseDirectory::Home => seen(self.home),
            BaseDirectory::Desktop => seen(self.desktop),
            BaseDirectory::Document => seen(self.document),
            BaseDirectory::Download => seen(self.download),
            BaseDirectory::Picture => seen(self.picture),
            BaseDirectory::Video => seen(self.video),
            BaseDirectory::Audio => seen(self.audio),
            BaseDirectory::Executable => seen(self.exe),
        }
    }

    /// The directories of an application.
    pub open spec fn app_places(&self) -> AppDirsView {
        AppDirsView {
            root: self.root@,
            data: self.data@,
            config: self.config@,
            cache: self.cache@,
            logs: self.logs@,
        }
    }

    /// The directories of a user.
    pub open spec fn user_places(&self) -> UserDirsView {
        UserDirsView {
            desktop: seen(self.desktop),
            document: seen(self.document),
            download: seen(self.download),
            picture: seen(self.picture),
            video: seen(self.video),
            audio: seen(self.audio),
        }
    }

    /// Every directory, by the conventions of the platform.
    pub fn for_app(app_id: &str, platform: Platform, around: &Surroundings) -> (paths: Self)
        ensures
            paths.platform == platform,
            paths.app_places() == app_dirs_of(app_id@, platform, *around),
            paths.user_places() == user_dirs_of(platform, *around),
            paths.temp@ == around.temp@,
            seen(paths.home) == seen(around.home),
            seen(paths.exe) == seen(around.exe),
    {
        let app = app_dirs(app_id, platform, around);
        let user = user_dirs(platform, around);
        Paths {
            platform,
            root: app.root,
            data: app.data,
            config: app.config,
            cache: app.cache,
            logs: app.logs,
            temp: around.temp.as_str().to_owned(),
            home: copied(&around.home),
            desktop: user.desktop,
            document: user.document,
            download: user.download,
            picture: user.picture,
            video: user.video,
            audio: user.audio,
            exe: copied(&around.exe),
        }
    }

    /// Every directory of an application that has a private place of its own, and nothing else.
    pub fn for_android(internal_data: Option<&str>, temp: &str) -> (paths: Self)
        ensures
            ({
                let root = match internal_data {
                    Some(root) => root@,
                    None => joined(temp@, "lxlake"@),
                };
                let files = joined(root, "files"@);
                &&& paths.app_places() == (AppDirsView {
                    root,
                    data: files,
                    config: joined(files, "config"@),
                    cache: joined(root, "cache"@),
                    logs: joined(files, "logs"@),
                })
                &&& paths.temp@ == joined(root, "cache"@)
            }),
            paths.platform == Platform::Other,
            paths.home is None,
            paths.exe is None,
            paths.user_places() == (UserDirsView {
                desktop: None,
                document: None,
                download: None,
                picture: None,
                video: None,
                audio: None,
            }),
    {
        let root = match internal_data {
            Some(root) => root.to_owned(),
            None => join(temp, "lxlake"),
        };
        let files = join(root.as_str(), "files");
        let cache = join(root.as_str(), "cache");
        Paths {
            platform: Platform::Other,
            config: join(files.as_str(), "config"),
            logs: join(files.as_str(), "logs"),
            data: files,
            temp: cache.as_str().to_owned(),
            cache,
            root,
            home: None,
            desktop: None,
            document: None,
            download: None,
            picture: None,
            video: None,
            audio: None,
            exe: None,
        }
    }

    /// What is used before anything is known, where paths are separated by `/`: everything below the
    /// temporary directory.
    pub fn fallback(temp: &str) -> (paths: Self)
        ensures
            paths.is_fallback(Platform::Other, temp@),
    {
        Paths::fallback_on(Platform::Other, temp)
    }

    /// Whether everything is below the temporary directory, and nothing else is known.
    pub open spec fn is_fallback(&self, platform: Platform, temp: Seq<char>) -> bool {
        let root = joined_on(platform, temp, "lxlake"@);
        &&& self.platform == platform
        &&& self.app_places() == if platform == Platform::Windows {
            under_windows_root(root)
        } else {
            under_root(root)
        }
        &&& self.temp@ == temp
        &&& self.home is None
        &&& self.exe is None
        &&& self.user_places() == (UserDirsView {
            desktop: None,
            document: None,
            download: None,
            picture: None,
            video: None,
            audio: None,
        })
    }

    /// What is used before anything is known: everything below the temporary directory.
    pub fn fallback_on(platform: Platform, temp: &str) -> (paths: Self)
        ensures
            paths.is_fallback(platform, temp@),
    {
        let app = if platform == Platform::Windows {
            below_windows(join_windows(temp, "lxlake"))
        } else {
            below(join(temp, "lxlake"))
        };
        Paths {
            platform,
            root: app.root,
            data: app.data,
            config: app.config,
            cache: app.cache,
            logs: app.logs,
            temp: temp.to_owned(),
            home: None,
            desktop: None,
            document: None,
            download: None,
            picture: None,
            video: None,
            audio: None,
            exe: None,
        }
    }

    /// The directory that is meant; none if it is not known.
    pub fn dir(&self, base: BaseDirectory) -> (dir: Option<&str>)
        ensures
            seen_str(dir) == self.place(base),
    {
        match base {
            BaseDirectory::AppRoot => Some(self.root.as_str()),
            BaseDirectory::AppData => Some(self.data.as_str()),
            BaseDirectory::AppConfig => Some(self.config.as_str()),
            BaseDirectory::AppCache => Some(self.cache.as_str()),
            BaseDirectory::AppLog => Some(self.logs.as_str()),
            BaseDirectory::Temp => Some(self.temp.as_str()),
            BaseDirectory::Home => text_of(&self.home),
            BaseDirectory::Desktop => text_of(&self.desktop),
            BaseDirectory::Document => text_of(&self.document),
            BaseDirectory::Download => text_of(&self.download),
            BaseDirectory::Picture => text_of(&self.picture),
            BaseDirectory::Video => text_of(&self.video),
            BaseDirectory::Audio => text_of(&self.audio),
            BaseDirectory::Executable => text_of(&self.exe),
        }
    }

    /// Where a path leads, taken from a directory.
    pub open spec fn leads_to(&self, path: Seq<char>, base: BaseDirectory) -> Option<Seq<char>> {
        if complete(self.platform, path) {
            Some(path)
        } else {
            match self.place(base) {
                Some(dir) => Some(joined_on(self.platform, dir, path)),
                None => None,
            }
        }
    }

    /// Where a path leads, taken from a directory; a complete path leads where it says.
    pub fn resolve(&self, path: &str, base: BaseDirectory) -> (result: Option<String>)
        ensures
            seen(result) == self.leads_to(path@, base),
    {
        let windows = self.platform == Platform::Windows;
        let whole = if windows {
            crate::path::windows::is_absolute(path)
        } else {
            is_absolute(path)
        };
        if whole {
            return Some(path.to_owned());
        }
        match self.dir(base) {
            Some(dir) => Some(join_on(self.platform, dir, path)),
            None => None,
        }
    }

    /// Where a path leads, taken from a directory.
    pub fn resolve_string(&self, path: &str, base: BaseDirectory) -> (result: Option<String>)
        ensures
            seen(result) == self.leads_to(path@, base),
    {
        self.resolve(path, base)
    }

    /// The default log file.
    pub fn default_log_path(&self) -> (path: String)
        ensures
            path@ == joined_on(self.platform, self.logs@, "lxlake.log"@),
    {
        join_on(self.platform, self.logs.as_str(), DEFAULT_FILE_NAME)
    }
}

fn text_of(text: &Option<String>) -> (result: Option<&str>)
    ensures
        seen_str(result) == seen(*text),
{
    match text {
        Some(text) => Some(text.as_str()),
        None => None,
    }
}

/// The directories of the application and the temporary one are always known; those of the user are
/// known exactly where there is a home directory, on a platform that has them.
pub proof fn every_directory_is_answered(platform: Platform, around: Surroundings, paths: Paths)
    requires
        paths.platform == platform,
        platform != Platform::Other,
        paths.user_places() == user_dirs_of(platform, around),
        seen(paths.home) == seen(around.home),
    ensures
        paths.place(BaseDirectory::AppRoot) is Some,
        paths.place(BaseDirectory::AppData) is Some,
        paths.place(BaseDirectory::AppConfig) is Some,
        paths.place(BaseDirectory::AppCache) is Some,
        paths.place(BaseDirectory::AppLog) is Some,
        paths.place(BaseDirectory::Temp) is Some,
        paths.place(BaseDirectory::Desktop) is Some == around.home is Some,
        paths.place(BaseDirectory::Document) is Some == around.home is Some,
        paths.place(BaseDirectory::Download) is Some == around.home is Some,
        paths.place(BaseDirectory::Picture) is Some == around.home is Some,
        paths.place(BaseDirectory::Video) is Some == around.home is Some,
        paths.place(BaseDirectory::Audio) is Some == around.home is Some,
        paths.place(BaseDirectory::Home) is Some == around.home is Some,
{
}

/// A complete path leads to itself, whatever directory it is taken from.
pub proof fn a_complete_path_leads_to_itself(paths: Paths, path: Seq<char>, base: BaseDirectory)
    requires
        complete(paths.platform, path),
    ensures
        paths.leads_to(path, base) == Some(path),
{
}

/// The variable that is usual on the platform decides where the home directory is, even where the other is
/// set too; an empty one says that there is none, and without either there is none.
pub proof fn the_usual_variable_decides(home: Option<Seq<char>>, profile: Option<Seq<char>>, platform: Platform)
    ensures
        ({
            let usual = if platform == Platform::Windows {
                profile
            } else {
                home
            };
            let other = if platform == Platform::Windows {
                home
            } else {
                profile
            };
            &&& usual matches Some(dir) ==> home_on(platform, home, profile) == (if dir.len() > 0 {
                Some(dir)
            } else {
                None
            })
            &&& usual is None && other is Some && other->0.len() > 0 ==> home_on(platform, home, profile) == other
            &&& usual is None && other is None ==> home_on(platform, home, profile) is None
        }),
{
}

/// The temporary directory is what the first variable that is set says, in the order that is usual on the
/// platform, and the default where it says nothing.
pub proof fn the_first_variable_decides(
    temp: Option<Seq<char>>,
    tmp: Option<Seq<char>>,
    tmpdir: Option<Seq<char>>,
    default: Seq<char>,
)
    ensures
        temp matches Some(dir) ==> (dir.len() > 0 ==> temp_on(Platform::Windows, temp, tmp, tmpdir, default) == dir),
        temp is None && tmp is Some && tmp->0.len() > 0 ==> temp_on(Platform::Windows, temp, tmp, tmpdir, default)
            == tmp->0,
        tmpdir matches Some(dir) ==> (dir.len() > 0 ==> temp_on(Platform::Linux, temp, tmp, tmpdir, default) == dir),
        tmpdir is None && temp is Some && temp->0.len() > 0 ==> temp_on(Platform::Macos, temp, tmp, tmpdir, default)
            == temp->0,
        temp is None && tmp is None && tmpdir is None ==> temp_on(Platform::Windows, temp, tmp, tmpdir, default)
            == default && temp_on(Platform::Linux, temp, tmp, tmpdir, default) == default,
        tmpdir == Some(Seq::<char>::empty()) ==> temp_on(Platform::Linux, temp, tmp, tmpdir, default) == default,
{
}

proof fn quotes_come_off(value: Seq<char>)
    requires
        value.len() > 0 ==> value[0] != '"' && value.last() != '"',
    ensures
        unquoted(seq!['"'] + value + seq!['"']) == value,
{
    let s = seq!['"'] + value + seq!['"'];
    let t = value + seq!['"'];
    assert(s.skip(1) =~= t);
    if value.len() > 0 {
        assert(t[0] == value[0]);
        assert(unquoted(t) == unquoted_tail(t));
        assert(t.drop_last() =~= value);
        assert(unquoted_tail(value) == value);
    } else {
        assert(t =~= seq!['"']);
        assert(t.skip(1) =~= Seq::<char>::empty());
        assert(unquoted(t) == unquoted(t.skip(1)));
        assert(unquoted_tail(Seq::<char>::empty()) =~= Seq::<char>::empty());
        assert(unquoted(s) == unquoted(t));
        assert(unquoted(s) =~= value);
    }
}

proof fn found_at(s: Seq<char>, c: char, i: int, at: int)
    requires
        0 <= i <= at < s.len(),
        s[at] == c,
        forall|k: int| i <= k < at ==> #[trigger] s[k] != c,
    ensures
        find_from(s, c, i) == at,
    decreases at - i,
{
    if i < at {
        assert(s[i] != c);
        found_at(s, c, i + 1, at);
    }
}

/// Whether a text is nothing but white space.
pub open spec fn blank_text(s: Seq<char>) -> bool {
    forall|i: int| 0 <= i < s.len() ==> white_space(#[trigger] s[i])
}

/// A line `NAME="value"` of the file that names the directories of a user names the value under the name,
/// whatever white space stands around the two, with the home directory filled in.
pub proof fn a_line_names_a_directory(
    before: Seq<char>,
    name: Seq<char>,
    middle: Seq<char>,
    behind: Seq<char>,
    value: Seq<char>,
    end: Seq<char>,
    home: Seq<char>,
)
    requires
        blank_text(before) && blank_text(middle) && blank_text(behind) && blank_text(end),
        name.len() > 0,
        name[0] != '#',
        !white_space(name[0]) && !white_space(name.last()),
        forall|i: int| 0 <= i < name.len() ==> #[trigger] name[i] != '=',
        value.len() > 0 ==> value[0] != '"' && value.last() != '"',
    ensures
        line_entry(
            before + name + middle + seq!['='] + behind + (seq!['"'] + value + seq!['"']) + end,
            home,
        ) == Some((name, replaced(value, 0, seq!['$', 'H', 'O', 'M', 'E'], home))),
{
    let quoted = seq!['"'] + value + seq!['"'];
    let line = before + name + middle + seq!['='] + behind + quoted + end;
    let text = name + middle + seq!['='] + behind + quoted;
    assert(line =~= before + text + end);
    assert(text[0] == name[0]);
    assert(text.last() == '"');
    white_space_around_is_trimmed(before, text, end);
    let at = (name.len() + middle.len()) as int;
    assert forall|k: int| 0 <= k < at implies #[trigger] text[k] != '=' by {
        if k < name.len() {
            assert(text[k] == name[k]);
        } else {
            assert(text[k] == middle[k - name.len()]);
            assert(white_space(middle[k - name.len()]));
        }
    }
    assert(text[at] == '=');
    found_at(text, '=', 0, at);
    let none = Seq::<char>::empty();
    assert(text.take(at) =~= none + name + middle);
    white_space_around_is_trimmed(none, name, middle);
    assert(text.skip(at + 1) =~= behind + quoted + none);
    assert(quoted[0] == '"' && quoted.last() == '"');
    white_space_around_is_trimmed(behind, quoted, none);
    quotes_come_off(value);
}

/// Empty lines, comments and lines without a `=` name nothing.
pub proof fn other_lines_name_nothing(line: Seq<char>, home: Seq<char>)
    requires
        trimmed(line).len() == 0 || trimmed(line)[0] == '#' || forall|i: int|
            0 <= i < trimmed(line).len() ==> #[trigger] trimmed(line)[i] != '=',
    ensures
        line_entry(line, home) is None,
{
    let text = trimmed(line);
    if text.len() > 0 && text[0] != '#' {
        the_first_place_is_found(text, '=', 0);
    }
}

/// Of the lines that name a directory the last counts; none is named where no line does.
pub proof fn the_last_line_counts(lines: Seq<Seq<char>>, key: Seq<char>, home: Seq<char>)
    ensures
        match looked_up(lines, key, home) {
            Some(value) => exists|i: int|
                0 <= i < lines.len() && line_entry(#[trigger] lines[i], home) == Some((key, value)) && forall|j: int|
                    i < j < lines.len() ==> !(line_entry(#[trigger] lines[j], home) matches Some(entry) && entry.0
                        == key),
            None => forall|i: int|
                0 <= i < lines.len() ==> !(line_entry(#[trigger] lines[i], home) matches Some(entry) && entry.0
                    == key),
        },
    decreases lines.len(),
{
    if lines.len() > 0 {
        let n = lines.len() - 1;
        let rest = lines.drop_last();
        let names = |line: Seq<char>| line_entry(line, home) matches Some(entry) && entry.0 == key;
        if names(lines.last()) {
            let value = looked_up(lines, key, home)->0;
            assert(line_entry(lines[n], home) == Some((key, value)));
        } else {
            the_last_line_counts(rest, key, home);
            if looked_up(rest, key, home) is Some {
                let value = looked_up(rest, key, home)->0;
                let i = choose|i: int|
                    0 <= i < rest.len() && line_entry(#[trigger] rest[i], home) == Some((key, value))
                        && forall|j: int|
                        i < j < rest.len() ==> !(line_entry(#[trigger] rest[j], home) matches Some(entry)
                            && entry.0 == key);
                assert(lines[i] == rest[i]);
                assert forall|j: int| i < j < lines.len() implies !names(#[trigger] lines[j]) by {
                    if j < n {
                        assert(lines[j] == rest[j]);
                    }
                }
            } else {
                assert forall|i: int| 0 <= i < lines.len() implies !names(#[trigger] lines[i]) by {
                    if i < n {
                        assert(lines[i] == rest[i]);
                    }
                }
            }
        }
    }
}

/// Where the environment names a directory for a kind of file, that is where an application has its own;
/// where it does not, it is the usual one below the home directory.
pub proof fn the_environment_names_directories(app_id: Seq<char>, home: Seq<char>, around: Surroundings)
    ensures
        ({
            let dirs = linux_app_dirs(app_id, home, around);
            &&& around.data_home matches Some(dir) ==> dirs.data == joined(dir@, app_id)
            &&& around.config_home matches Some(dir) ==> dirs.config == joined(dir@, app_id)
            &&& around.cache_home matches Some(dir) ==> dirs.cache == joined(dir@, app_id)
            &&& around.state_home matches Some(dir) ==> dirs.logs == joined(joined(dir@, app_id), "logs"@)
            &&& around.data_home is None ==> dirs.data == joined(joined(home, ".local/share"@), app_id)
            &&& around.config_home is None ==> dirs.config == joined(joined(home, ".config"@), app_id)
            &&& around.cache_home is None ==> dirs.cache == joined(joined(home, ".cache"@), app_id)
            &&& around.state_home is None ==> dirs.logs == joined(
                joined(joined(home, ".local/state"@), app_id),
                "logs"@,
            )
            &&& dirs.root == dirs.data
        }),
{
}

/// On Windows what travels with the user is kept apart from what stays on the machine: data and configuration
/// are roaming, cache and logs are local, each where the environment says or below the home directory.
pub proof fn what_travels_is_kept_apart(app_id: Seq<char>, around: Surroundings)
    requires
        around.roaming is Some && around.local is Some || around.home is Some,
    ensures
        ({
            let dirs = windows_app_dirs(app_id, around);
            let below = |part: Seq<char>| joined_windows(joined_windows(around.home->0@, "AppData"@), part);
            let roaming = joined_windows(
                if around.roaming is Some {
                    around.roaming->0@
                } else {
                    below("Roaming"@)
                },
                app_id,
            );
            let local = joined_windows(
                if around.local is Some {
                    around.local->0@
                } else {
                    below("Local"@)
                },
                app_id,
            );
            &&& dirs.root == roaming
            &&& dirs.data == joined_windows(roaming, "data"@)
            &&& dirs.config == joined_windows(roaming, "config"@)
            &&& dirs.cache == joined_windows(local, "cache"@)
            &&& dirs.logs == joined_windows(local, "logs"@)
        }),
{
}

/// A path that is not complete is taken from the directory, and leads nowhere if that is not known.
pub proof fn a_relative_path_is_taken_from_the_directory(paths: Paths, path: Seq<char>, base: BaseDirectory)
    requires
        !complete(paths.platform, path),
    ensures
        paths.place(base) is None <==> paths.leads_to(path, base) is None,
        paths.place(base) is Some && paths.platform == Platform::Windows ==> paths.leads_to(path, base) == Some(
            joined_windows(paths.place(base)->0, path),
        ),
        paths.place(base) is Some && paths.platform != Platform::Windows ==> paths.leads_to(path, base) == Some(
            joined(paths.place(base)->0, path),
        ),
{
}

/// On macOS an application has its data and its configuration in one place of the library, and its cache and its
/// logs in those for all applications.
pub proof fn the_library_keeps_caches_and_logs_apart(app_id: Seq<char>, around: Surroundings)
    requires
        around.home is Some,
    ensures
        ({
            let dirs = app_dirs_of(app_id, Platform::Macos, around);
            let own = joined(joined(around.home->0@, "Library/Application Support"@), app_id);
            &&& dirs.root == own && dirs.data == own && dirs.config == own
            &&& dirs.cache == joined(joined(around.home->0@, "Library/Caches"@), app_id)
            &&& dirs.logs == joined(joined(around.home->0@, "Library/Logs"@), app_id)
        }),
{
}

/// Where there is no home directory, or the platform is not known, everything of an application is below the
/// temporary directory, each kind of file in a directory of its own.
pub proof fn without_a_home_there_is_the_temporary_directory(app_id: Seq<char>, platform: Platform, around: Surroundings)
    requires
        platform == Platform::Other || (around.home is None && around.roaming is None),
    ensures
        ({
            let dirs = app_dirs_of(app_id, platform, around);
            let on = |base: Seq<char>, path: Seq<char>| if platform == Platform::Windows {
                joined_windows(base, path)
            } else {
                joined(base, path)
            };
            let root = on(on(around.temp@, "lxlake"@), app_id);
            &&& dirs.root == root
            &&& dirs.data == on(root, "data"@)
            &&& dirs.config == on(root, "config"@)
            &&& dirs.cache == on(root, "cache"@)
            &&& dirs.logs == on(root, "logs"@)
        }),
{
}

/// On Linux a directory of the user is the one that the file names, and the usual one below the home directory
/// where it names none or is missing.
pub proof fn the_file_names_directories(text: Option<Seq<char>>, home: Seq<char>, key: Seq<char>, usual: Seq<char>)
    ensures
        text is None ==> linux_user_dir(text, home, key, usual) == joined(home, usual),
        text matches Some(text) ==> (looked_up(parts(text, '\n'), key, home) matches Some(named) ==> linux_user_dir(
            Some(text),
            home,
            key,
            usual,
        ) == named),
        text matches Some(text) ==> (looked_up(parts(text, '\n'), key, home) is None ==> linux_user_dir(
            Some(text),
            home,
            key,
            usual,
        ) == joined(home, usual)),
{
}

} // verus!
