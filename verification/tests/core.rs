use cocotte::clean;
use cocotte::hue_ninetieths;
use cocotte::path_hue_ninetieths;
use cocotte::position_for;
use cocotte::positioner;

/// The hue of a path in degrees, accumulated in `f32`: normalize, then
/// fold `factor * position / 36` over the bytes of the concatenated
/// components, with factor 36 for the first ten bytes and 0.4 afterwards.
fn hue_for(path: &str) -> f32 {
    let comps = clean(path, &vec![]);
    let joined = comps.concat();
    let mut hue: f32 = 0.0;
    for (ix, b) in joined.bytes().enumerate() {
        let pos = position_for(b as usize);
        let factor: f32 = if ix < 10 { 36.0 } else { 0.4 };
        hue += factor * (pos as f32) / 36.0;
    }
    hue
}

#[test]
fn main_test() {
    assert_eq!(position_for('0' as usize), 0);
    assert_eq!(position_for('1' as usize), 1);
    assert_eq!(position_for('z' as usize), 35);
}

#[test]
fn cocotte_test() {
    let p = positioner();
    assert_eq!(p.position('0' as usize), (0, 36));
    assert_eq!(p.position('1' as usize), (1, 36));
    assert_eq!(p.position('z' as usize), (35, 36));
}

#[test]
fn positions_outside_alphabet() {
    assert_eq!(position_for('A' as usize), 0);
    assert_eq!(position_for('/' as usize), 0);
    assert_eq!(position_for('~' as usize), 0);
    assert_eq!(position_for(0), 0);
    assert_eq!(position_for('9' as usize), 9);
    assert_eq!(position_for('a' as usize), 10);
}

#[test]
fn hue_fixtures_flat_scan() {
    assert_eq!(hue_for("0"), 0.0);
    assert_eq!(hue_for(&"z".repeat(36)), 360.11102);
    let path = format!("{}/{}//{}", "z".repeat(10), "z".repeat(3), "z".repeat(20));
    assert_eq!(hue_for(&path), 358.94437);
}

#[test]
fn hue_scaled_exact() {
    assert_eq!(hue_ninetieths(""), 0);
    assert_eq!(hue_ninetieths("0"), 0);
    assert_eq!(hue_ninetieths("1"), 90);
    assert_eq!(hue_ninetieths("a"), 900);
    assert_eq!(hue_ninetieths("z"), 3150);
    // 10 * 90 * 35 for the first ten characters, then 35 for each of the
    // remaining 26.
    assert_eq!(hue_ninetieths(&"z".repeat(36)), 31500 + 26 * 35);
    // Bytes outside the alphabet score position 0.
    assert_eq!(hue_ninetieths("-"), 0);
    assert_eq!(
        hue_ninetieths("go-gitlab"),
        90 * (16 + 24 + 0 + 16 + 18 + 29 + 21 + 10 + 11)
    );
}

#[test]
fn weighting_boundary() {
    // Up to ten characters the hue grows linearly at the high factor:
    // 35 degrees, 3150 ninetieths, per 'z'.
    for n in 1..=10usize {
        assert_eq!(hue_ninetieths(&"z".repeat(n)), 3150 * n as u64);
    }
    assert_eq!(hue_for(&"z".repeat(10)), 350.0);
    // Past ten characters the growth rate drops sharply: 35 ninetieths
    // (0.4 * 35 / 36 degrees) per further 'z'.
    assert_eq!(hue_ninetieths(&"z".repeat(11)), 31535);
    assert_eq!(hue_ninetieths(&"z".repeat(12)), 31570);
    assert_eq!(hue_ninetieths(&"z".repeat(13)), 31605);
    assert_eq!(hue_for(&"z".repeat(11)), 350.38889);
    assert_eq!(hue_for(&"z".repeat(12)), 350.77777);
    assert_eq!(hue_for(&"z".repeat(13)), 351.16666);
}

#[test]
fn determinism() {
    let black_list = vec![String::from("src")];
    let a = path_hue_ninetieths("/home/user/src/project", &black_list);
    let b = path_hue_ninetieths("/home/user/src/project", &black_list);
    assert_eq!(a, b);
    assert_eq!(hue_for("/home/user/src/project"), hue_for("/home/user/src/project"));
    assert_eq!(
        clean("/Home/User", &black_list),
        clean("/Home/User", &black_list)
    );
}

#[test]
fn clean_splits_and_lowercases() {
    assert_eq!(
        clean("/Users/Foo/Bar", &vec![]),
        vec!["users".to_string(), "foo".to_string(), "bar".to_string()]
    );
    assert_eq!(clean("ABC", &vec![]), vec!["abc".to_string()]);
    assert_eq!(
        clean("a//b", &vec![]),
        vec!["a".to_string(), "b".to_string()]
    );
}

#[test]
fn clean_is_vacuous_on_clean_input() {
    // A path with no empty and no blacklisted segments comes back
    // unchanged but case-folded; running it through again changes
    // nothing.
    let black_list = vec![String::from("src")];
    let once = clean("users/foo/bar", &black_list);
    assert_eq!(
        once,
        vec!["users".to_string(), "foo".to_string(), "bar".to_string()]
    );
    let rejoined = once.join("/");
    assert_eq!(clean(&rejoined, &black_list), once);
}

#[test]
fn clean_blacklist_is_exact() {
    let black_list = vec![String::from("src"), String::from("home")];
    assert_eq!(
        clean("/home/user/src/project", &black_list),
        vec!["user".to_string(), "project".to_string()]
    );
    // The blacklist is matched against already-lowercased components.
    assert_eq!(clean("/SRC/x", &black_list), vec!["x".to_string()]);
    // Matching is case-sensitive on the blacklist side.
    let upper = vec![String::from("SRC")];
    assert_eq!(
        clean("/src/x", &upper),
        vec!["src".to_string(), "x".to_string()]
    );
}

#[test]
fn empty_after_filtering() {
    assert_eq!(clean("/", &vec![]), Vec::<String>::new());
    assert_eq!(clean("///", &vec![]), Vec::<String>::new());
    assert_eq!(clean("", &vec![]), Vec::<String>::new());
    let black_list = vec![String::from("src"), String::from(".")];
    assert_eq!(clean("/src/./", &black_list), Vec::<String>::new());
    // The hue of an all-filtered path is the defined value 0.
    assert_eq!(path_hue_ninetieths("///", &vec![]), 0);
    assert_eq!(path_hue_ninetieths("/src/./", &black_list), 0);
    assert_eq!(hue_for("///"), 0.0);
}

#[test]
fn path_hue_matches_flat_scan_of_components() {
    // Slashes only delimit: the hue comes from the concatenation of the
    // normalized components.
    assert_eq!(
        path_hue_ninetieths("zzzzzzzzzz/zzz//zzzzzzzzzzzzzzzzzzzz", &vec![]),
        31500 + 23 * 35
    );
    let black_list = vec![String::from("zzz")];
    assert_eq!(
        path_hue_ninetieths("zzzzzzzzzz/zzz//zzzzzzzzzzzzzzzzzzzz", &black_list),
        31500 + 20 * 35
    );
}
