use sovereign_lattice::pbft_control::run_pbft_control;

#[test]
fn independent_pbft_control_retains_external_claim_boundary() {
    let result = run_pbft_control(&"a".repeat(64), "v0,v0,v2,v3").unwrap();
    assert_eq!(result.unique_senders, 3);
    assert!(result.one_replacement_from_control);
    assert!(!result.all_four_distinct);
    assert_eq!(result.pbft_quorum_size, 3);
    assert!(result.topology_accepted);
    assert!(result.truncated_frame_rejected);
    assert!(result.invalid_phase_rejected);
}

#[test]
fn refuses_non_minimal_and_inconsistent_external_shapes() {
    for ids in ["v0,v1,v2,v3", "v0,v0,v0,v3", "v0,v1,v3,v3", "v0,v1,v2", "v0,v4,v2,v3"] {
        assert!(run_pbft_control(&"a".repeat(64), ids).is_err(), "{ids}");
    }
    assert!(run_pbft_control("abcd", "v0,v0,v2,v3").is_err());
}

#[test]
fn control_reports_the_witness_and_senders() {
    let digest = "0123456789abcdef".repeat(4);
    let result = run_pbft_control(&digest, "v3,v1,v2,v3").unwrap();
    assert_eq!(result.witness_digest, digest);
    assert_eq!(result.senders, vec![3, 1, 2, 3]);
    assert_eq!(result.unique_senders, 3);
    assert!(result.one_replacement_from_control);
}

#[test]
fn control_error_messages() {
    let good = "f".repeat(64);
    assert_eq!(
        run_pbft_control(&"A".repeat(64), "v0,v0,v2,v3"),
        Err("Expected lowercase 64-character external witness SHA-256".to_string())
    );
    assert_eq!(
        run_pbft_control(&"g".repeat(64), "v0,v0,v2,v3"),
        Err("Expected lowercase 64-character external witness SHA-256".to_string())
    );
    assert_eq!(
        run_pbft_control(&"a".repeat(65), "v0,v0,v2,v3"),
        Err("Expected lowercase 64-character external witness SHA-256".to_string())
    );
    assert_eq!(run_pbft_control(&good, "v0,v0,v2"), Err("Expected four external sender labels".to_string()));
    assert_eq!(run_pbft_control(&good, ""), Err("Expected four external sender labels".to_string()));
    assert_eq!(
        run_pbft_control(&good, "v0,v0,v2,v3,"),
        Err("Expected four external sender labels".to_string())
    );
    assert_eq!(run_pbft_control(&good, "v0,,v2,v3"), Err("Unknown external sender label".to_string()));
    assert_eq!(run_pbft_control(&good, "v0,V1,v2,v3"), Err("Unknown external sender label".to_string()));
    assert_eq!(run_pbft_control(&good, "v0, v1,v2,v3"), Err("Unknown external sender label".to_string()));
    assert_eq!(
        run_pbft_control(&good, "v0,v1,v2,v3"),
        Err("Expected the bounded M27 one-replacement, three-sender case".to_string())
    );
    // Every other single replacement is accepted.
    for ids in ["v1,v1,v2,v3", "v2,v1,v2,v3", "v0,v2,v2,v3", "v0,v3,v2,v3", "v0,v1,v1,v3", "v0,v1,v2,v2"] {
        assert!(run_pbft_control(&good, ids).is_ok(), "{ids}");
    }
    assert_eq!(
        run_pbft_control(&good, "v0,v1,v3,v3"),
        Err("Expected the bounded M27 one-replacement, three-sender case".to_string())
    );
    // Three distinct senders but two replacements.
    assert_eq!(
        run_pbft_control(&good, "v1,v0,v2,v2"),
        Err("Expected the bounded M27 one-replacement, three-sender case".to_string())
    );
}
