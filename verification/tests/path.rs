//! Paths as texts, and the directories of applications and users.

use lxlake::path::lexical::{
    expand_user, is_absolute, is_hidden, is_hidden_on, join, long_path, normalize, normalize_on,
    sanitize_file_name,
};
use lxlake::path::windows;
use lxlake::path::places::{
    home_dir, home_dir_on, temp_dir, temp_dir_on, user_dirs_file, xdg_user_dir, BaseDirectory, Paths, Platform, Surroundings,
};

fn around(home: Option<&str>, exe: Option<&str>) -> Surroundings {
    Surroundings {
        home: home.map(str::to_owned),
        temp: "/tmp".to_owned(),
        roaming: None,
        local: None,
        data_home: None,
        config_home: None,
        cache_home: None,
        state_home: None,
        user_dirs: None,
        exe: exe.map(str::to_owned),
    }
}

fn windows_around() -> Surroundings {
    Surroundings {
        home: Some(r"C:\Users\me".to_owned()),
        temp: r"C:\Temp".to_owned(),
        roaming: Some(r"C:\Users\me\AppData\Roaming".to_owned()),
        local: Some(r"C:\Users\me\AppData\Local".to_owned()),
        data_home: None,
        config_home: None,
        cache_home: None,
        state_home: None,
        user_dirs: None,
        exe: Some(r"C:\Program Files\lxlake".to_owned()),
    }
}

#[test]
fn the_windows_conventions_are_what_the_table_says() {
    let app_id = "com.lxlake.path-test";
    let paths = Paths::for_app(app_id, Platform::Windows, &windows_around());
    let root = r"C:\Users\me\AppData\Roaming\com.lxlake.path-test";
    let local_app = r"C:\Users\me\AppData\Local\com.lxlake.path-test";

    assert_eq!(paths.root, root);
    assert_eq!(paths.data, format!(r"{root}\data"));
    assert_eq!(paths.config, format!(r"{root}\config"));
    assert_eq!(paths.cache, format!(r"{local_app}\cache"));
    assert_eq!(paths.logs, format!(r"{local_app}\logs"));
    assert_eq!(paths.temp, r"C:\Temp");
    assert_eq!(paths.home.as_deref(), Some(r"C:\Users\me"));
    assert!(paths.exe.is_some());
    assert_eq!(paths.default_log_path(), format!(r"{local_app}\logs\lxlake.log"));
}

#[test]
fn dir_answers_every_variant() {
    for (home, exe) in [
        (Some("/home/me"), Some("/opt/lxlake")),
        (None, Some("/opt/lxlake")),
        (Some("/home/me"), None),
        (None, None),
    ] {
        let paths = Paths::for_app("com.lxlake.dir-test", Platform::Linux, &around(home, exe));
        for base in BaseDirectory::all() {
            let expected = match base {
                BaseDirectory::AppRoot
                | BaseDirectory::AppData
                | BaseDirectory::AppConfig
                | BaseDirectory::AppCache
                | BaseDirectory::AppLog
                | BaseDirectory::Temp => true,
                BaseDirectory::Home
                | BaseDirectory::Desktop
                | BaseDirectory::Document
                | BaseDirectory::Download
                | BaseDirectory::Picture
                | BaseDirectory::Video
                | BaseDirectory::Audio => paths.home.is_some(),
                BaseDirectory::Executable => paths.exe.is_some(),
            };
            assert_eq!(paths.dir(base).is_some(), expected, "{base:?}");
        }
    }
}

#[test]
fn resolve_joins_relative_and_keeps_absolute() {
    let paths = Paths::for_app(
        "com.lxlake.resolve-test",
        Platform::Linux,
        &around(Some("/home/me"), None),
    );

    assert_eq!(
        paths.resolve("config.toml", BaseDirectory::AppConfig),
        Some(format!("{}/config.toml", paths.config))
    );
    assert_eq!(
        paths.resolve_string("config.toml", BaseDirectory::AppConfig),
        Some(format!("{}/config.toml", paths.config))
    );
    assert_eq!(
        paths.resolve("save/world.dat", BaseDirectory::AppData),
        Some(format!("{}/save/world.dat", paths.data))
    );
    assert_eq!(
        paths.resolve("/tmp/lxlake.txt", BaseDirectory::AppData),
        Some("/tmp/lxlake.txt".to_owned())
    );

    let windows = Paths::for_app("com.lxlake.resolve-test", Platform::Windows, &windows_around());
    assert_eq!(
        windows.resolve(r"C:\tmp\lxlake.txt", BaseDirectory::AppData),
        Some(r"C:\tmp\lxlake.txt".to_owned())
    );
    assert_eq!(
        windows.resolve("config.toml", BaseDirectory::AppConfig),
        Some(format!(r"{}\config.toml", windows.config))
    );
}

#[test]
fn expand_user_only_handles_our_own_home() {
    let home = Some("/home/me");
    assert_eq!(expand_user("~user/x", home), None);
    assert_eq!(expand_user("a/~/b", home), None);
    assert_eq!(expand_user("~", home), Some("/home/me".to_owned()));
    assert_eq!(expand_user("~/save.dat", home), Some("/home/me/save.dat".to_owned()));
    assert_eq!(expand_user("~", None), None);
}

#[test]
fn normalizing_twice_is_normalizing_once() {
    for path in ["", "/", "a//b/", "./..", "../../a/./b/../c", "/../x/..", "..a/.b/..c/.."] {
        let once = normalize(path);
        assert_eq!(normalize(once.as_str()), once);
    }
    assert_eq!(normalize("..a/.b/..c/.."), "..a/.b");
}

#[test]
fn normalize_is_lexical() {
    assert_eq!(normalize("a/./b"), "a/b");
    assert_eq!(normalize("a/b/../c"), "a/c");
    assert_eq!(normalize("./a"), "a");
    assert_eq!(normalize(""), ".");
    assert_eq!(normalize("../a"), "../a");
    assert_eq!(normalize("/.."), "/..");
    assert_eq!(normalize("a/.."), ".");

    assert_eq!(normalize_on("a/./b", true), r"a\b");
    assert_eq!(normalize_on("a/b/../c", true), r"a\c");
    assert_eq!(normalize_on("./a", true), "a");
    assert_eq!(normalize_on("", true), ".");
    assert_eq!(normalize_on(r"..\a", true), r"..\a");
    assert_eq!(normalize_on("a/..", false), ".");
}

#[test]
fn windows_paths_are_normalized() {
    for (path, expected) in [
        (r"a\..", "."),
        (r"C:\a\.\b\..\c/", r"C:\a\c"),
        (r"C:\..", r"C:\.."),
        (r"C:a\..", "C:"),
        (r"C:..\x", r"C:..\x"),
        (r"\a\..\..\b", r"\..\b"),
        (r"//server/share/a/../b", r"//server/share\b"),
        (r"\\server\share", r"\\server\share\"),
        (r"\\?\C:\a\..\..\b", r"\\?\C:\b"),
        ("1:x", "1:x"),
    ] {
        assert_eq!(normalize_on(path, true), expected, "{path}");
    }
}

#[test]
fn windows_paths_are_joined() {
    for (base, path, expected) in [
        (r"C:\a", "b", r"C:\a\b"),
        (r"C:\a\", r"b\c", r"C:\a\b\c"),
        ("C:", "b", "C:b"),
        (r"C:\a", r"\b", r"C:\b"),
        (r"C:\a", "/b", "C:/b"),
        (r"C:\a", "D:b", "D:b"),
        (r"C:\a", r"D:\b", r"D:\b"),
        (r"C:\a", "1:x", r"C:\a\1:x"),
        (r"C:\a", r"\\server\share", r"\\server\share"),
        (r"\\server\share\a", r"\b", r"\\server\share\b"),
        (r"\\?\C:\a\b", r"..\.\c", r"\\?\C:\a\c"),
        (r"\\?\C:\a", r"\c", r"\\?\C:\c"),
        (r"\\?\C:\a", "", r"\\?\C:\a\"),
        ("", "a", "a"),
    ] {
        assert_eq!(windows::join(base, path), expected, "{base} {path}");
    }
}

#[test]
fn windows_paths_are_complete_with_a_prefix_and_a_root() {
    for path in [r"C:\x", "c:/x", r"\\server\share", "//server/share", r"\\.\COM1", r"\\?\x"] {
        assert!(windows::is_absolute(path), "{path}");
    }
    for path in ["C:x", "C:", r"\x", "/x", "x", r"\\server", r"\\server\", "1:/x", ""] {
        assert!(!windows::is_absolute(path), "{path}");
    }
}

#[test]
fn windows_paths_are_compared_name_by_name() {
    assert!(windows::is_same_path(r"ui\main.lxml", "ui//./main.lxml/"));
    assert!(windows::is_same_path(r"C:\x", "c:/x"));
    assert!(windows::is_same_path(r"\\server\share", "//server/share/"));
    assert!(!windows::is_same_path(r"C:\x", "C:x"));
    assert!(!windows::is_same_path("./x", "x"));
    assert!(!windows::is_same_path("X", "x"));
    assert!(!windows::is_same_path(r"\\server\share", "//Server/share"));
    assert!(windows::is_same_path(r"\\?\c:\x", r"\\?\C:\x"));
    assert!(!windows::is_same_path(r"\\?\C:\x", r"C:\x"));
}

#[test]
fn a_normalized_path_starts_where_the_path_does() {
    for path in ["/a/..", "..", "../a/../../b", "/../a/b/..", "a/b"] {
        let result = normalize(path);
        assert_eq!(is_absolute(&result), is_absolute(path));
        assert!(!result.is_empty());
        assert!(!result.trim_start_matches("/").trim_start_matches("../").contains("/.."));
    }
    assert_eq!(normalize("../a/../../b"), "../../b");
}

#[test]
fn before_anything_is_known_paths_are_temporary() {
    let paths = Paths::fallback_on(Platform::Windows, r"C:\Temp");
    assert_eq!(paths.logs, r"C:\Temp\lxlake\logs");
    assert_eq!(paths.resolve(r"C:\x", BaseDirectory::AppData), Some(r"C:\x".to_owned()));
    assert_eq!(paths.resolve(r"\x", BaseDirectory::AppData), Some(r"C:\x".to_owned()));
    assert_eq!(paths.resolve("D:x", BaseDirectory::Temp), Some("D:x".to_owned()));
    assert_eq!(paths.resolve("1:x", BaseDirectory::Temp), Some(r"C:\Temp\1:x".to_owned()));
    let paths = Paths::fallback("/tmp");
    assert_eq!(paths.logs, "/tmp/lxlake/logs");
    let odd = Paths::for_app(r"D:\own", Platform::Windows, &windows_around());
    assert_eq!(odd.root, r"D:\own");
    assert_eq!(odd.cache, r"D:\own\cache");
}

#[test]
fn sanitize_replaces_illegal_characters() {
    assert_eq!(
        sanitize_file_name(r#"a<b>c:d"e/f\g|h?i*j"#),
        "a_b_c_d_e_f_g_h_i_j"
    );
    assert_eq!(sanitize_file_name("name...  "), "name");
    assert_eq!(sanitize_file_name("正常名字.txt"), "正常名字.txt");
    assert_eq!(sanitize_file_name("带\n换行"), "带_换行");
}

#[test]
fn sanitizing_agrees_with_control_characters_of_std() {
    for code in 0..=0x10_FFFFu32 {
        if let Some(ch) = char::from_u32(code) {
            let illegal = "<>:\"/\\|?*".contains(ch) || ch.is_control();
            let name = format!("a{ch}b");
            let expected = if illegal { "a_b".to_owned() } else { name.clone() };
            assert_eq!(sanitize_file_name(&name), expected, "{code:x}");
        }
    }
}

#[test]
fn sanitizing_twice_is_sanitizing_once() {
    for name in ["a?. .", "x/y", "   ", "名 . "] {
        let once = sanitize_file_name(name);
        assert_eq!(sanitize_file_name(&once), once);
    }
}

#[test]
fn hidden_is_decided_by_a_leading_dot() {
    assert!(is_hidden(".git"));
    assert!(is_hidden("/tmp/.hidden"));
    assert!(!is_hidden("visible"));
    assert!(is_hidden_on(r"C:\.git", true));
    assert!(is_hidden_on(r"C:.git\.", true));
    assert!(!is_hidden_on(r"C:\.git", false));
    assert!(!is_hidden_on(r".git\..", true));
}

#[test]
fn long_path_prefixes_only_on_windows() {
    assert_eq!(long_path(r"C:\tmp\lxlake", true), r"\\?\C:\tmp\lxlake");
    assert_eq!(long_path(r"\\?\C:\tmp\lxlake", true), r"\\?\C:\tmp\lxlake");
    assert_eq!(
        long_path(r"\\server\share\dir", true),
        r"\\?\UNC\server\share\dir"
    );
    assert_eq!(long_path(r"relative\dir", true), r"relative\dir");
    assert_eq!(long_path("//server/share", true), r"\\?\//server/share");
    assert_eq!(long_path(r"\dir", true), r"\dir");
    assert_eq!(long_path("/tmp/lxlake", false), "/tmp/lxlake");
}

#[test]
fn joining_follows_std() {
    let pairs = [("a", "b"), ("a/", "b"), ("a", "/b"), ("", "b"), ("a", ""), ("/", "b")];
    for (base, path) in pairs {
        let expected = std::path::Path::new(base).join(path);
        assert_eq!(join(base, path), expected.to_str().unwrap(), "{base} {path}");
        assert_eq!(is_absolute(path), std::path::Path::new(path).is_absolute());
    }
}

#[test]
fn linux_directories_follow_the_environment() {
    let mut place = around(Some("/home/me"), None);
    let paths = Paths::for_app("app", Platform::Linux, &place);
    assert_eq!(paths.root, "/home/me/.local/share/app");
    assert_eq!(paths.data, "/home/me/.local/share/app");
    assert_eq!(paths.config, "/home/me/.config/app");
    assert_eq!(paths.cache, "/home/me/.cache/app");
    assert_eq!(paths.logs, "/home/me/.local/state/app/logs");
    assert_eq!(paths.dir(BaseDirectory::Video), Some("/home/me/Videos"));

    place.cache_home = Some("/fast".to_owned());
    place.user_dirs = Some(
        "# comment\nXDG_MUSIC_DIR=\"$HOME/Lieder\"\nXDG_DOWNLOAD_DIR=\"/data/dl\"\n".to_owned(),
    );
    let paths = Paths::for_app("app", Platform::Linux, &place);
    assert_eq!(paths.cache, "/fast/app");
    assert_eq!(paths.dir(BaseDirectory::Audio), Some("/home/me/Lieder"));
    assert_eq!(paths.dir(BaseDirectory::Download), Some("/data/dl"));
    assert_eq!(paths.dir(BaseDirectory::Picture), Some("/home/me/Pictures"));
}

#[test]
fn macos_directories_are_in_the_library() {
    let paths = Paths::for_app("app", Platform::Macos, &around(Some("/Users/me"), None));
    assert_eq!(paths.root, "/Users/me/Library/Application Support/app");
    assert_eq!(paths.cache, "/Users/me/Library/Caches/app");
    assert_eq!(paths.logs, "/Users/me/Library/Logs/app");
    assert_eq!(paths.dir(BaseDirectory::Video), Some("/Users/me/Movies"));
}

#[test]
fn without_a_home_everything_goes_below_the_temporary_directory() {
    let paths = Paths::for_app("app", Platform::Linux, &around(None, None));
    assert_eq!(paths.root, "/tmp/lxlake/app");
    assert_eq!(paths.logs, "/tmp/lxlake/app/logs");
    assert_eq!(Paths::fallback("/tmp").root, "/tmp/lxlake");

    let android = Paths::for_android(Some("/data/app"), "/tmp");
    assert_eq!(android.data, "/data/app/files");
    assert_eq!(android.temp, "/data/app/cache");
    assert_eq!(android.config, "/data/app/files/config");
    assert_eq!(Paths::for_android(None, "/tmp").root, "/tmp/lxlake");
}

#[test]
fn a_complete_path_is_kept_whatever_the_base() {
    let paths = Paths::fallback("/tmp");
    for base in BaseDirectory::all() {
        assert_eq!(paths.resolve("/a/b", base), Some("/a/b".to_owned()));
    }
    assert_eq!(paths.resolve("a", BaseDirectory::Home), None);
}

#[test]
fn user_directories_are_read_from_their_file() {
    assert_eq!(user_dirs_file(None, "/home/me"), "/home/me/.config/user-dirs.dirs");
    assert_eq!(user_dirs_file(Some("/cfg"), "/home/me"), "/cfg/user-dirs.dirs");
    let text = "XDG_DESKTOP_DIR=\"$HOME/a\"\nXDG_DESKTOP_DIR=\"$HOME/b\"\nnonsense\n";
    assert_eq!(
        xdg_user_dir(text, "XDG_DESKTOP_DIR", "/home/me"),
        Some("/home/me/b".to_owned())
    );
    assert_eq!(xdg_user_dir(text, "XDG_MUSIC_DIR", "/home/me"), None);
}

#[test]
fn home_and_temporary_directory_have_an_order() {
    assert_eq!(home_dir(Some("/a"), Some("/b")), Some("/a".to_owned()));
    assert_eq!(home_dir(None, Some("/b")), Some("/b".to_owned()));
    assert_eq!(home_dir(None, None), None);
    assert_eq!(temp_dir(Some("/t"), Some("/u"), Some("/v"), "/d"), "/t");
    assert_eq!(temp_dir(None, Some("/u"), Some("/v"), "/d"), "/u");
    assert_eq!(temp_dir(None, None, Some("/v"), "/d"), "/v");
    assert_eq!(temp_dir(None, None, None, "/d"), "/d");

    let (home, profile) = (Some("/a"), Some("/b"));
    assert_eq!(home_dir_on(Platform::Windows, home, profile), Some("/b".to_owned()));
    assert_eq!(home_dir_on(Platform::Windows, home, None), Some("/a".to_owned()));
    assert_eq!(home_dir_on(Platform::Linux, home, profile), Some("/a".to_owned()));
    assert_eq!(home_dir_on(Platform::Macos, Some(""), profile), None);
    let temp_on = |platform| temp_dir_on(platform, Some("/t"), Some("/u"), Some("/v"), "/d");
    assert_eq!(temp_on(Platform::Windows), "/t");
    assert_eq!(temp_on(Platform::Linux), "/v");
    assert_eq!(temp_dir_on(Platform::Macos, None, None, None, "/d"), "/d");
    assert_eq!(temp_dir_on(Platform::Linux, Some("/t"), None, None, "/d"), "/t");
}
