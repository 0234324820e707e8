//! Races, walks and patterns.
use celld_store::qualify::{
    check_churn, check_escaped, check_generation, check_listing, check_replica,
    check_replica_file, check_winner, claimant, contains_all, has_text, is_large_pattern,
    numbered_keys, race_winner, same_keys, strictly_increasing, ChurnFault, EscapedFacts, EscapedFault, ListingFacts, ListingFault,
    PageWalk, PutOutcome, RaceFault, ReplicaFault, ReplicaFile, WalkFault,
};

fn texts(list: &[&str]) -> Vec<String> {
    list.iter().map(|s| s.to_string()).collect()
}

#[test]
fn a_race_has_exactly_one_winner() {
    let won = || PutOutcome::Won {
        e_tag: Some("7".into()),
    };
    let outcomes = vec![PutOutcome::Conflict, won(), PutOutcome::Conflict];
    assert_eq!(race_winner(&outcomes), Ok(1));
    let two = vec![won(), won(), PutOutcome::Conflict];
    assert_eq!(
        race_winner(&two),
        Err(RaceFault::Tally {
            successes: 2,
            conflicts: 1,
            failures: 0
        })
    );
    let failed = vec![won(), PutOutcome::Failed];
    assert_eq!(
        race_winner(&failed),
        Err(RaceFault::Tally {
            successes: 1,
            conflicts: 0,
            failures: 1
        })
    );
    assert!(race_winner(&Vec::new()).is_err());
}

#[test]
fn the_winner_is_what_is_read() {
    let tag = |t: &str| Some(t.to_string());
    let text = claimant(12);
    assert_eq!(text, "claimant-12");
    assert_eq!(check_winner(&tag("7"), &tag("7"), &text, "claimant-12"), Ok(()));
    assert_eq!(
        check_winner(&None, &tag("7"), &text, &text),
        Err(RaceFault::NoEtag)
    );
    assert_eq!(
        check_winner(&tag(""), &tag(""), &text, &text),
        Err(RaceFault::NoEtag)
    );
    assert_eq!(
        check_winner(&tag("7"), &tag("8"), &text, &text),
        Err(RaceFault::OtherGeneration)
    );
    assert_eq!(
        check_winner(&tag("7"), &tag("7"), &text, "claimant-1"),
        Err(RaceFault::OtherBody)
    );
    assert_eq!(check_generation(&tag("7"), &tag("8"), true), Ok(()));
    assert_eq!(
        check_generation(&tag("7"), &tag("7"), true),
        Err(RaceFault::ReusedEtag)
    );
    assert_eq!(
        check_generation(&tag("7"), &tag("8"), false),
        Err(RaceFault::StaleAccepted)
    );
}

#[test]
fn walks_end_and_never_stand_still() {
    let mut walk = PageWalk::new(2);
    assert_eq!(
        walk.accept(texts(&["a", "b"]), Some("b".into())),
        Ok(false)
    );
    assert_eq!(walk.accept(texts(&["c"]), None), Ok(true));
    assert_eq!(walk.keys, texts(&["a", "b", "c"]));
    assert_eq!(walk.pages, 2);
    let mut walk = PageWalk::new(1);
    assert_eq!(
        walk.accept(texts(&["a", "b"]), None),
        Err(WalkFault::PageTooLarge)
    );
    assert_eq!((walk.keys.len(), walk.pages, &walk.token), (0, 0, &None));
    let mut walk = PageWalk::new(1);
    assert_eq!(walk.accept(texts(&["a"]), Some("a".into())), Ok(false));
    assert_eq!(
        walk.accept(texts(&["a"]), Some("a".into())),
        Err(WalkFault::Stuck)
    );
    assert_eq!(walk.keys, texts(&["a", "a"]));
    assert_eq!((walk.pages, walk.token.as_deref()), (2, Some("a")));
    let mut walk = PageWalk::new(1);
    for i in 0..99 {
        assert_eq!(walk.accept(Vec::new(), Some(i.to_string())), Ok(false));
    }
    assert_eq!(
        walk.accept(Vec::new(), Some("x".into())),
        Err(WalkFault::Endless)
    );
    assert_eq!((walk.pages, walk.token.as_deref()), (100, Some("x")));
}

#[test]
fn keys_are_numbered_ordered_and_contained() {
    let keys = numbered_keys("p/", 1002);
    assert_eq!(keys[0], "p/0000");
    assert_eq!(keys[42], "p/0042");
    assert_eq!(keys[999], "p/0999");
    assert_eq!(keys[1001], "p/1001");
    assert!(strictly_increasing(&keys));
    assert!(strictly_increasing(&Vec::new()));
    assert!(!strictly_increasing(&texts(&["a", "a"])));
    assert!(!strictly_increasing(&texts(&["b", "a"])));
    assert!(contains_all(&keys, &texts(&["p/0007", "p/0000"])));
    assert!(!contains_all(&keys, &texts(&["p/0007", "q"])));
    assert!(has_text(&keys, "p/0007") && !has_text(&keys, "p"));
    assert!(same_keys(&keys, &keys.clone()));
    assert!(!same_keys(&keys, &Vec::new()));
}

#[test]
fn parts_of_the_large_object_repeat_their_number() {
    let part = 8 * 1024 * 1024;
    assert!(is_large_pattern(part - 1, &vec![0, 1, 1]));
    assert!(!is_large_pattern(part - 1, &vec![0, 0]));
    assert!(is_large_pattern(127 * part, &vec![127; 4]));
}

#[test]
fn listings_qualify_only_when_every_reading_does() {
    let expected = numbered_keys("study/list/", 211);
    let facts = || ListingFacts {
        prefix: "study/list/".into(),
        recursive: expected.clone(),
        after_offset: expected[101..].to_vec(),
        paged: expected.clone(),
        raw_offset: Some(expected[101..104].to_vec()),
        continuation: texts(&["e", "h", "z"]),
        expected_continuation: texts(&["e", "h", "z"]),
    };
    assert_eq!(check_listing(&facts()), Ok(()));
    let without_offset = ListingFacts {
        raw_offset: None,
        ..facts()
    };
    assert_eq!(check_listing(&without_offset), Ok(()));
    let wrong = |change: &dyn Fn(&mut ListingFacts)| {
        let mut facts = facts();
        change(&mut facts);
        check_listing(&facts).unwrap_err()
    };
    assert_eq!(
        wrong(&|f| f.recursive.swap(0, 1)),
        ListingFault::Recursive
    );
    assert_eq!(
        wrong(&|f| drop(f.after_offset.pop())),
        ListingFault::StreamOffset
    );
    assert_eq!(wrong(&|f| drop(f.paged.pop())), ListingFault::Pagination);
    assert_eq!(
        wrong(&|f| f.raw_offset = Some(Vec::new())),
        ListingFault::RawOffset
    );
    assert_eq!(
        wrong(&|f| f.continuation.push("zz".into())),
        ListingFault::Continuation
    );
}

#[test]
fn churn_neither_reorders_nor_hides() {
    let seen = texts(&["a", "b", "c"]);
    assert_eq!(check_churn(&seen, &texts(&["a", "c"])), Ok(()));
    assert_eq!(
        check_churn(&seen, &texts(&["d"])),
        Err(ChurnFault::Hidden)
    );
    assert_eq!(
        check_churn(&texts(&["b", "a"]), &Vec::new()),
        Err(ChurnFault::Reordered)
    );
}

#[test]
fn escaped_keys_stay_the_same_everywhere() {
    let facts = || EscapedFacts {
        key: "p/a%25z/name".into(),
        parent: "p/a%25z".into(),
        told: "p/a%25z/name".into(),
        listed: texts(&["p/a%25z/name"]),
        grouped: texts(&["p/a%25z"]),
        paged: texts(&["p/a%25z"]),
        read_back: true,
        gone: true,
    };
    assert_eq!(check_escaped(&facts()), Ok(()));
    let wrong = |change: &dyn Fn(&mut EscapedFacts)| {
        let mut facts = facts();
        change(&mut facts);
        check_escaped(&facts).unwrap_err()
    };
    assert_eq!(wrong(&|f| f.told.clear()), EscapedFault::Told);
    assert_eq!(wrong(&|f| f.listed.clear()), EscapedFault::Listed);
    assert_eq!(
        wrong(&|f| f.grouped = texts(&["p/a%2525z"])),
        EscapedFault::Grouped
    );
    assert_eq!(wrong(&|f| f.paged.clear()), EscapedFault::Paged);
    assert_eq!(wrong(&|f| f.read_back = false), EscapedFault::ReadBack);
    assert_eq!(wrong(&|f| f.gone = false), EscapedFault::Deleted);
}

#[test]
fn replicas_give_back_their_files() {
    let written: Vec<u8> = (0..300).map(|i| i as u8).collect();
    let file = || ReplicaFile {
        written: written.clone(),
        whole: written.clone(),
        range: written[17..140].to_vec(),
        paged: written[31..288].to_vec(),
    };
    assert_eq!(check_replica_file(&file()), Ok(()));
    let mut other = file();
    other.whole[299] = 0;
    assert_eq!(check_replica_file(&other), Err(ReplicaFault::Whole));
    let mut other = file();
    other.range.pop();
    assert_eq!(check_replica_file(&other), Err(ReplicaFault::Range));
    let mut other = file();
    other.paged[0] = 0;
    assert_eq!(check_replica_file(&other), Err(ReplicaFault::Paged));
    let parts = 5 * 1024 * 1024;
    assert_eq!(check_replica(parts - 1, parts, &vec![2], false), Ok(()));
    assert_eq!(
        check_replica(parts, parts, &vec![2], false),
        Err(ReplicaFault::Threshold)
    );
    assert_eq!(
        check_replica(1, parts, &vec![1, 2], false),
        Err(ReplicaFault::Seek)
    );
    assert_eq!(
        check_replica(1, parts, &vec![2], true),
        Err(ReplicaFault::Left)
    );
}
