use featomatic::driver::{invocation_args, needs_confirmation, Driver, FAILURE_EXIT_CODE};
use featomatic::features::{discriminate_features, Feature, Summary};
use featomatic::options::{base_args, Options};
use featomatic::prompt::{is_affirmative, is_affirmative_token};
use featomatic::subsets::{feature_sets, non_default_names};

fn strings(v: &[&str]) -> Vec<String> {
    v.iter().map(|s| s.to_string()).collect()
}

fn run_all(driver: &mut Driver, outcomes: &[bool]) -> Vec<Vec<String>> {
    let mut seen = Vec::new();
    let mut i = 0;
    while let Some(args) = driver.next_invocation() {
        seen.push(args);
        driver.record(outcomes[i]);
        i += 1;
    }
    seen
}

#[test]
fn two_features_enumerate_singletons() {
    assert_eq!(feature_sets(&strings(&["a", "b"])), strings(&["a", "b"]));
}

#[test]
fn two_features_run_succeeds() {
    let mut d = Driver::new(Options::default(), &strings(&["a", "b"]));
    let seen = run_all(&mut d, &[true, true]);
    assert_eq!(
        seen,
        vec![
            strings(&["check", "--no-default-features", "--features", "a"]),
            strings(&["check", "--no-default-features", "--features", "b"]),
        ]
    );
    assert_eq!(d.exit_code(), 0);
}

#[test]
fn three_features_enumerate_in_order() {
    assert_eq!(
        feature_sets(&strings(&["a", "b", "c"])),
        strings(&["a", "b", "c", "a b", "a c", "b c"])
    );
}

#[test]
fn three_features_third_fails_all_attempted() {
    let mut d = Driver::new(Options::default(), &strings(&["a", "b", "c"]));
    let seen = run_all(&mut d, &[true, true, false, true, true, true]);
    assert_eq!(seen.len(), 6);
    assert_eq!(seen[1].last().unwrap(), "b");
    assert_eq!(seen[5].last().unwrap(), "b c");
    assert_eq!(d.exit_code(), 7);
    assert_eq!(FAILURE_EXIT_CODE, 7);
}

#[test]
fn no_features_no_builds() {
    assert!(feature_sets(&Vec::new()).is_empty());
    let mut d = Driver::new(Options::default(), &Vec::new());
    assert_eq!(d.set_count(), 0);
    assert!(d.next_invocation().is_none());
    assert!(run_all(&mut d, &[]).is_empty());
    assert_eq!(d.exit_code(), 0);
}

#[test]
fn single_feature_no_builds() {
    assert!(feature_sets(&strings(&["only"])).is_empty());
    let d = Driver::new(Options::default(), &strings(&["only"]));
    assert!(d.next_invocation().is_none());
    assert_eq!(d.exit_code(), 0);
}

#[test]
fn five_features_ask_first() {
    let names = strings(&["a", "b", "c", "d", "e"]);
    let sets = feature_sets(&names);
    assert_eq!(sets.len(), 30);
    assert!(needs_confirmation(sets.len(), false));
    assert!(!needs_confirmation(sets.len(), true));
    assert!(!needs_confirmation(9, false));
    assert!(needs_confirmation(10, false));
    assert_eq!(sets[5], "a b");
    assert_eq!(sets[29], "b c d e");
}

#[test]
fn five_features_declined_runs_nothing() {
    let mut d = Driver::new(Options::default(), &strings(&["a", "b", "c", "d", "e"]));
    assert!(!is_affirmative("n\n"));
    d.decline();
    assert!(d.next_invocation().is_none());
    assert_eq!(d.exit_code(), 0);
}

#[test]
fn five_features_confirmed_runs_all() {
    let mut d = Driver::new(Options::default(), &strings(&["a", "b", "c", "d", "e"]));
    assert!(is_affirmative("y\n"));
    let seen = run_all(&mut d, &[true; 30]);
    assert_eq!(seen.len(), 30);
    assert_eq!(d.exit_code(), 0);
}

#[test]
fn classifier_scenario() {
    let summary = Summary {
        features: vec![
            ("a".to_string(), vec![]),
            ("b".to_string(), strings(&["dep1"])),
            ("c".to_string(), strings(&["a"])),
        ],
        dependencies: strings(&["dep1"]),
    };
    let r = discriminate_features(&summary);
    assert_eq!(r.len(), 3);
    assert!(matches!(&r[0], Feature::Flag(n) if n == "a"));
    assert!(matches!(&r[1], Feature::Dependency(n) if n == "b"));
    assert!(matches!(&r[2], Feature::Meta(n) if n == "c"));
    assert_eq!(r[2].name(), "c");
}

#[test]
fn classifier_mixed_and_shared_tokens() {
    let summary = Summary {
        features: vec![
            ("mixed".to_string(), strings(&["dep1", "other"])),
            ("shared".to_string(), strings(&["dep1", "dep2"])),
            ("dep2".to_string(), vec![]),
        ],
        dependencies: strings(&["dep1", "dep2"]),
    };
    let r = discriminate_features(&summary);
    assert!(matches!(&r[0], Feature::Meta(_)));
    assert!(matches!(&r[1], Feature::Dependency(_)));
    assert!(matches!(&r[2], Feature::Flag(_)));
}

#[test]
fn default_never_in_subsets() {
    let names = strings(&["a", "default", "b", "c"]);
    assert_eq!(non_default_names(&names), strings(&["a", "b", "c"]));
    let sets = feature_sets(&names);
    assert_eq!(sets, strings(&["a", "b", "c", "a b", "a c", "b c"]));
    assert!(sets.iter().all(|s| !s.split(' ').any(|n| n == "default")));
}

#[test]
fn subset_count_and_uniqueness() {
    for n in 2..8usize {
        let names: Vec<String> = (0..n).map(|i| format!("f{}", i)).collect();
        let sets = feature_sets(&names);
        assert_eq!(sets.len(), (1usize << n) - 2);
        let mut sorted = sets.clone();
        sorted.sort();
        sorted.dedup();
        assert_eq!(sorted.len(), sets.len());
        for s in &sets {
            let k = s.split(' ').count();
            assert!(k >= 1 && k < n);
        }
    }
}

#[test]
fn subsets_grouped_by_size() {
    let names = strings(&["w", "x", "y", "z"]);
    let sets = feature_sets(&names);
    let sizes: Vec<usize> = sets.iter().map(|s| s.split(' ').count()).collect();
    let mut sorted = sizes.clone();
    sorted.sort();
    assert_eq!(sizes, sorted);
    assert_eq!(
        sets,
        strings(&[
            "w", "x", "y", "z", "w x", "w y", "w z", "x y", "x z", "y z", "w x y", "w x z", "w y z",
            "x y z"
        ])
    );
}

#[test]
fn flags_in_fixed_order() {
    let options = Options {
        arg_args: strings(&["--lib"]),
        version: false,
        verbose: 2,
        quiet: true,
        manifest_path: Some("x/Cargo.toml".to_string()),
        color: Some("never".to_string()),
        frozen: true,
        locked: true,
        yes: false,
    };
    let expected = strings(&[
        "--lib",
        "--verbose",
        "--verbose",
        "--quiet",
        "--manifest-path",
        "x/Cargo.toml",
        "--color",
        "never",
        "--frozen",
        "--locked",
        "--no-default-features",
    ]);
    assert_eq!(base_args(options.clone()), expected);
    assert_eq!(base_args(options), expected);
}

#[test]
fn flags_default_options() {
    assert_eq!(base_args(Options::default()), strings(&["--no-default-features"]));
}

#[test]
fn every_invocation_shares_flags() {
    let mut options = Options::default();
    options.locked = true;
    let mut d = Driver::new(options, &strings(&["a", "b", "c"]));
    let seen = run_all(&mut d, &[true; 6]);
    for args in &seen {
        assert_eq!(&args[..3], &strings(&["check", "--locked", "--no-default-features"])[..]);
        assert_eq!(args[3], "--features");
    }
}

#[test]
fn empty_subset_omits_features_flag() {
    let base = strings(&["--no-default-features"]);
    assert_eq!(
        invocation_args(&base, &String::new()),
        strings(&["check", "--no-default-features"])
    );
    assert_eq!(
        invocation_args(&base, &"a b".to_string()),
        strings(&["check", "--no-default-features", "--features", "a b"])
    );
}

#[test]
fn prompt_accepts_affirmatives() {
    for t in ["yes", "y", "j", "ja", "oui", "si", "da"] {
        assert!(is_affirmative_token(t));
        assert!(is_affirmative(t));
        assert!(is_affirmative(&format!("  {}\n", t)));
        assert!(is_affirmative(&format!("\t{} \r\n", t)));
    }
}

#[test]
fn prompt_rejects_others() {
    for t in ["n", "no", "", "   \n", "Yes", "Y", "yess", "maybe", "y y"] {
        assert!(!is_affirmative(t));
    }
    assert!(!is_affirmative_token(" y"));
}

#[test]
fn prompt_trims_unicode_white_space() {
    assert!(is_affirmative("\u{3000}ja\u{a0}"));
    assert!(is_affirmative("\u{2009}oui\u{85}"));
    assert!(!is_affirmative("\u{200b}y"));
}
