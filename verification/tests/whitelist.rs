use fastgmad::whitelist::{check, is_ignored};

const ADDON_WHITELIST: &[&str] = &[
    "lua/*.lua",
    "scenes/*.vcd",
    "particles/*.pcf",
    "resource/fonts/*.ttf",
    "scripts/vehicles/*.txt",
    "resource/localization/*/*.properties",
    "maps/*.bsp",
    "maps/*.lmp",
    "maps/*.nav",
    "maps/*.ain",
    "maps/thumb/*.png",
    "sound/*.wav",
    "sound/*.mp3",
    "sound/*.ogg",
    "materials/*.vmt",
    "materials/*.vtf",
    "materials/*.png",
    "materials/*.jpg",
    "materials/*.jpeg",
    "materials/colorcorrection/*.raw",
    "models/*.mdl",
    "models/*.vtx",
    "models/*.phy",
    "models/*.ani",
    "models/*.vvd",
    "gamemodes/*/*.txt",
    "gamemodes/*/*.fgd",
    "gamemodes/*/logo.png",
    "gamemodes/*/icon24.png",
    "gamemodes/*/gamemode/*.lua",
    "gamemodes/*/entities/effects/*.lua",
    "gamemodes/*/entities/weapons/*.lua",
    "gamemodes/*/entities/entities/*.lua",
    "gamemodes/*/backgrounds/*.png",
    "gamemodes/*/backgrounds/*.jpg",
    "gamemodes/*/backgrounds/*.jpeg",
    "gamemodes/*/content/models/*.mdl",
    "gamemodes/*/content/models/*.vtx",
    "gamemodes/*/content/models/*.phy",
    "gamemodes/*/content/models/*.ani",
    "gamemodes/*/content/models/*.vvd",
    "gamemodes/*/content/materials/*.vmt",
    "gamemodes/*/content/materials/*.vtf",
    "gamemodes/*/content/materials/*.png",
    "gamemodes/*/content/materials/*.jpg",
    "gamemodes/*/content/materials/*.jpeg",
    "gamemodes/*/content/materials/colorcorrection/*.raw",
    "gamemodes/*/content/scenes/*.vcd",
    "gamemodes/*/content/particles/*.pcf",
    "gamemodes/*/content/resource/fonts/*.ttf",
    "gamemodes/*/content/scripts/vehicles/*.txt",
    "gamemodes/*/content/resource/localization/*/*.properties",
    "gamemodes/*/content/maps/*.bsp",
    "gamemodes/*/content/maps/*.nav",
    "gamemodes/*/content/maps/*.ain",
    "gamemodes/*/content/maps/thumb/*.png",
    "gamemodes/*/content/sound/*.wav",
    "gamemodes/*/content/sound/*.mp3",
    "gamemodes/*/content/sound/*.ogg",
    "data_static/*.txt",
    "data_static/*.dat",
    "data_static/*.json",
    "data_static/*.xml",
    "data_static/*.csv",
    "data_static/*.dem",
    "data_static/*.vcd",
    "data_static/*.vtf",
    "data_static/*.vmt",
    "data_static/*.png",
    "data_static/*.jpg",
    "data_static/*.jpeg",
    "data_static/*.mp3",
    "data_static/*.wav",
    "data_static/*.ogg",
];

#[test]
pub fn test_whitelist() {
    let good: &[&str] = &[
        "lua/test.lua",
        "lua/lol/test.lua",
        "lua/lua/testing.lua",
        "gamemodes/test/something.txt",
        "gamemodes/test/content/sound/lol.wav",
        "materials/lol.jpeg",
        "gamemodes/the_gamemode_name/backgrounds/file_name.jpg",
        "gamemodes/my_base_defence/backgrounds/1.jpg",
    ];

    let bad: &[&str] = &[
        "test.lua",
        "lua/test.exe",
        "lua/lol/test.exe",
        "gamemodes/test",
        "gamemodes/test/something",
        "gamemodes/test/something/something.exe",
        "gamemodes/test/content/sound/lol.vvv",
        "materials/lol.vvv",
        "test",
    ];

    for good in good {
        assert!(check(good), "{}", good);
    }

    for good in ADDON_WHITELIST {
        assert!(check(&good.replace('*', "test")));
    }

    for good in ADDON_WHITELIST {
        assert!(check(&good.replace('*', "a")));
    }

    for bad in bad {
        assert!(!check(bad));
    }
}

#[test]
pub fn test_ignore() {
    assert!(is_ignored("lol.txt", &["lol.txt".to_string()]));
    assert!(is_ignored("lua/hello.lua", &["lua/*.lua".to_string()]));
    assert!(is_ignored("lua/hello.lua", &["lua/*".to_string()]));
    assert!(is_ignored(".gitattributes", &[".git*".to_string()]));
    assert!(!is_ignored("lol.txt", &[]));
}

#[test]
fn test_glob_star_matches_everything() {
    let star = vec!["*".to_string()];
    assert!(is_ignored("", &star));
    assert!(is_ignored("a", &star));
    assert!(is_ignored("lua/some/deep/path.lua", &star));
    assert!(is_ignored("\u{7f}strange\tbytes", &star));
}

#[test]
fn test_glob_literal_reflexive() {
    for p in ["plain.txt", "a/b/c", "no-wildcards_at-all"] {
        assert!(is_ignored(p, &[p.to_string()]));
    }
}

#[test]
fn test_glob_star_crosses_separators() {
    // matching is byte-wise: the star absorbs separators too
    assert!(is_ignored("a/b.lua", &["a/*.lua".to_string()]));
    assert!(is_ignored("a/b/c.lua", &["a/*.lua".to_string()]));
    assert!(!is_ignored("a/b.luax", &["a/*.lua".to_string()]));
    assert!(!is_ignored("b/b.lua", &["a/*.lua".to_string()]));
}

#[test]
fn test_glob_question_mark() {
    assert!(is_ignored("a.lua", &["?.lua".to_string()]));
    assert!(!is_ignored("ab.lua", &["?.lua".to_string()]));
    assert!(!is_ignored(".lua", &["?.lua".to_string()]));
    assert!(is_ignored("axc", &["a?c".to_string()]));
}

#[test]
fn test_glob_backtracking() {
    // the star must retry shorter matches to find the tail
    assert!(is_ignored("aXbXc", &["a*Xc".to_string()]));
    assert!(is_ignored("aXbXcXc", &["a*Xc".to_string()]));
    assert!(!is_ignored("aXbXd", &["a*Xc".to_string()]));
    assert!(is_ignored("mississippi", &["m*issip*".to_string()]));
    assert!(!is_ignored("mississippi", &["m*issib*".to_string()]));
    assert!(is_ignored("abc", &["a***c".to_string()]));
    assert!(!is_ignored("ab", &["a*b*c".to_string()]));
}
