use shbox::sandbox::subid::delegation::{
    parse_getsubids_output, query_for_account, run_getsubids, Delegation, DelegationCache,
    DelegationGeneration, Error, FileGeneration, FileTime, GenerationLook, HelperRun, QueryTurn,
    RangeProblem, SubidRange,
};
use std::cell::Cell;

#[test]
fn parses_single_and_multiple_ranges() {
    assert_eq!(
        parse_getsubids_output("0: ubuntu 165536 65536\n").expect("parse"),
        vec![SubidRange::new(165536, 65536).expect("range")]
    );
    let ranges = parse_getsubids_output("0: ubuntu 100000 65536\n1: ubuntu 200000 1000\n")
        .expect("parse");
    assert_eq!(ranges.len(), 2);
    assert_eq!(ranges[0].start(), 100000);
    assert!(ranges[1].contains(200999));
    assert!(!ranges[1].contains(201000));
}

#[test]
fn empty_output_is_no_ranges() {
    assert!(parse_getsubids_output("").expect("parse").is_empty());
    assert!(parse_getsubids_output("\n").expect("parse").is_empty());
}

#[test]
fn rejects_malformed_lines() {
    for bad in [
        "ubuntu 165536 65536\n",              // missing index
        "x: ubuntu 165536 65536\n",           // non-numeric index
        "0: ubuntu 165536\n",                 // missing count
        "0: ubuntu 165536 65536 7\n",         // extra field
        "0: ubuntu 165536 zero\n",            // non-numeric count
        "0: ubuntu 165536 0\n",               // zero-length range
        "0: ubuntu 4294967296 1\n",           // start beyond 32-bit IDs
        "0: ubuntu 4294967295 2\n",           // end overflows 32-bit IDs
        "0: ubuntu 18446744073709551616 1\n", // non-parseable overflow
    ] {
        assert!(
            parse_getsubids_output(bad).is_err(),
            "accepted malformed output: {bad:?}"
        );
    }
}

#[test]
fn range_end_may_reach_but_not_pass_the_id_space_end() {
    assert!(SubidRange::new(u32::MAX as u64, 1).is_ok());
    assert!(SubidRange::new(u32::MAX as u64, 2).is_err());
    assert!(SubidRange::new(0, 1).is_ok());
}

#[test]
fn delegation_membership_checks_ranges_independently() {
    let delegation = Delegation {
        uid_ranges: vec![SubidRange::new(100_000, 10).expect("range")],
        gid_ranges: vec![SubidRange::new(200_000, 5).expect("range")],
    };
    assert!(delegation.contains_uid(100_009));
    assert!(!delegation.contains_uid(200_000));
    assert!(delegation.contains_gid(200_004));
    assert!(!delegation.contains_gid(200_005));
}

fn exited(stdout: &str) -> HelperRun {
    HelperRun::Exited {
        success: true,
        code: Some(0),
        stdout: stdout.to_string(),
        stderr: String::new(),
    }
}

fn file(len: u64) -> FileGeneration {
    FileGeneration {
        present: true,
        len,
        modified: Some(FileTime { seconds: 1, nanoseconds: 2 }),
    }
}

fn generation(len: u64) -> DelegationGeneration {
    DelegationGeneration { subuid: file(len), subgid: file(3), nsswitch: file(4) }
}

fn sample() -> Result<Delegation, Error> {
    query_for_account(exited("0: ubuntu 165536 65536\n"), exited("0: ubuntu 200000 10\n"))
}

#[test]
fn query_delegation_reports_a_missing_helper_distinctly() {
    let mut cache = DelegationCache::default();
    let missing = cache.query(|_: GenerationLook| generation(1), |_: QueryTurn| {
        query_for_account(HelperRun::NotFound, HelperRun::NotFound)
    });
    assert!(matches!(missing, Err(Error::HelperMissing)));
    let delegation = cache.query(|_: GenerationLook| generation(1), |_: QueryTurn| sample()).expect("delegation");
    assert!(!delegation.uid_ranges.is_empty());
    assert!(!delegation.gid_ranges.is_empty());
}

#[test]
fn helper_failures_are_told_apart() {
    let failed = HelperRun::Exited {
        success: false,
        code: Some(2),
        stdout: "0: ubuntu 165536 65536\n".to_string(),
        stderr: "  no such user\n".to_string(),
    };
    let error = run_getsubids(failed).expect_err("failed");
    assert_eq!(error.message(), "getsubids failed with status Some(2): no such user");
    let quiet = HelperRun::Exited {
        success: false,
        code: None,
        stdout: String::new(),
        stderr: String::new(),
    };
    assert_eq!(
        run_getsubids(quiet).expect_err("quiet").message(),
        "getsubids failed with status None"
    );
    let unreadable = HelperRun::Failed { detail: "EACCES".to_string() };
    assert_eq!(
        run_getsubids(unreadable).expect_err("unreadable").message(),
        "getsubids could not be executed: EACCES"
    );
    assert_eq!(
        run_getsubids(HelperRun::NotFound).expect_err("missing").message(),
        "getsubids is not installed or not on PATH"
    );
    assert_eq!(
        parse_getsubids_output("0: \"u\" 1\n").expect_err("line").message(),
        "malformed getsubids output line \"0: \\\"u\\\" 1\""
    );
    assert_eq!(
        parse_getsubids_output("0: u 5 0\n").expect_err("range").message(),
        format!(
            "invalid subordinate range in getsubids line \"0: u 5 0\": {}",
            SubidRange::new(5, 0).expect_err("zero").message()
        )
    );
    for (start, count, problem) in [
        (1, 0, RangeProblem::ZeroLength),
        (1 << 32, 1, RangeProblem::StartTooLarge),
        (u64::MAX, 2, RangeProblem::StartTooLarge),
        (1, u64::MAX, RangeProblem::EndTooLarge),
    ] {
        assert!(matches!(
            SubidRange::new(start, count),
            Err(Error::Range(found)) if found == problem
        ));
    }
}

#[test]
fn ranges_count_their_ids() {
    let range = SubidRange::new(100, 3).expect("range");
    assert_eq!(range.end(), 103);
    assert_eq!(range.ids(0), Some(100));
    assert_eq!(range.ids(2), Some(102));
    assert_eq!(range.ids(3), None);
    let whole = SubidRange::new(0, 1 << 32).expect("the whole space");
    assert_eq!(whole.end(), 1 << 32);
    assert!(whole.contains(u32::MAX));
}

#[test]
fn discovery_is_cached_until_a_source_changes() {
    let mut cache = DelegationCache::default();
    let queries = Cell::new(0);
    let query = |_: QueryTurn| {
        queries.set(queries.get() + 1);
        sample()
    };
    cache.query(|_: GenerationLook| generation(1), query).expect("cold");
    cache.query(|_: GenerationLook| generation(1), query).expect("warm");
    assert_eq!(queries.get(), 1);
    cache.refresh(|_: GenerationLook| generation(1), query).expect("forced");
    assert_eq!(queries.get(), 2);
    cache.query(|_: GenerationLook| generation(2), query).expect("changed file");
    assert_eq!(queries.get(), 3);
    // A source that changes under every query is given up on.
    let reads = Cell::new(10);
    let unstable = cache.query(
        |_: GenerationLook| {
            reads.set(reads.get() + 1);
            generation(reads.get())
        },
        query,
    );
    assert!(matches!(unstable, Err(Error::GenerationChanged)));
}

#[test]
fn a_change_during_the_first_run_publishes_the_second_answer() {
    let answer = |count: u64| {
        query_for_account(
            exited(&format!("0: ubuntu 165536 {count}\n")),
            exited("0: ubuntu 200000 10\n"),
        )
    };
    let mut cache = DelegationCache::default();
    let looked = |look: GenerationLook| match look {
        GenerationLook::Before => generation(1),
        GenerationLook::After | GenerationLook::Last => generation(2),
    };
    let asked = |turn: QueryTurn| match turn {
        QueryTurn::First => answer(1),
        QueryTurn::Second => answer(2),
    };
    let fresh = cache.query(looked, asked).expect("second answer");
    assert_eq!(fresh.uid_ranges[0].end(), 165_538);
    // The second answer is the one cached, under the new generation.
    let warm = cache
        .query(|_: GenerationLook| generation(2), |_: QueryTurn| Err(Error::HelperMissing))
        .expect("warm");
    assert_eq!(warm.uid_ranges[0].end(), 165_538);
}
