use evidence::{AccountId, CaseLookup, Error, Evidence, EvidenceNFT, FileHash, Status};

fn acct(b: u8) -> AccountId {
    AccountId { bytes: [b; 32] }
}

fn digest(b: u8) -> FileHash {
    FileHash { bytes: [b; 32] }
}

fn rec(desc: &str, case_id: u32) -> EvidenceNFT {
    EvidenceNFT {
        description: String::from(desc),
        owner: acct(1),
        file: digest(2),
        case_id,
        status: Status::New,
    }
}

fn store_with(cases: &[(u32, &str)]) -> Evidence {
    let mut lk = CaseLookup::new();
    for (id, title) in cases {
        lk.set_case_title(*id, String::from(*title));
    }
    Evidence::new(lk)
}

fn all_ids(st: &Evidence) -> Vec<u32> {
    st.get_all_evidence().iter().map(|o| o.evidence_id).collect()
}

#[test]
fn allocation_ids_run_from_one() {
    let mut st = store_with(&[]);
    for i in 0..5 {
        st.set_evidence(rec(&format!("r{}", i), 10));
    }
    assert_eq!(all_ids(&st), vec![1, 2, 3, 4, 5]);
    for k in 1..=5 {
        assert_eq!(st.get_evidence_id(k), k);
    }
}

#[test]
fn delete_not_found_leaves_store_unchanged() {
    let mut st = store_with(&[]);
    assert_eq!(st.burn_evidence(1), Err(Error::EvidenceNotFound));
    st.set_evidence(rec("a", 10));
    assert_eq!(st.burn_evidence(2), Err(Error::EvidenceNotFound));
    assert_eq!(all_ids(&st), vec![1]);
    assert_eq!(st.burn_evidence(1), Ok(()));
    assert_eq!(st.burn_evidence(1), Err(Error::EvidenceNotFound));
    assert_eq!(all_ids(&st), Vec::<u32>::new());
}

#[test]
fn update_not_found_leaves_store_unchanged() {
    let mut st = store_with(&[]);
    assert_eq!(st.update_evidence(1, rec("x", 10)), Err(Error::EvidenceNotFound));
    st.set_evidence(rec("a", 10));
    assert_eq!(st.update_evidence(7, rec("x", 10)), Err(Error::EvidenceNotFound));
    let out = st.get_evidence_by_id(1).unwrap();
    assert_eq!(out.description, "a");
    assert_eq!(all_ids(&st), vec![1]);
}

#[test]
fn create_then_get_round_trips_every_field() {
    let mut st = store_with(&[(10, "arson")]);
    let r = EvidenceNFT {
        description: String::from("photo"),
        owner: acct(9),
        file: digest(7),
        case_id: 10,
        status: Status::New,
    };
    st.set_evidence(r);
    let out = st.get_evidence_by_id(1).expect("id 1 must be live");
    assert_eq!(out.evidence_id, 1);
    assert_eq!(out.description, "photo");
    assert_eq!(out.owner, acct(9));
    assert_eq!(out.file, digest(7));
    assert_eq!(out.case_id, 10);
    assert_eq!(out.status, Status::New);
    assert_eq!(out.case_title, Some(String::from("arson")));
}

#[test]
fn deletion_removes_visibility_for_good() {
    let mut st = store_with(&[]);
    st.set_evidence(rec("a", 10));
    st.set_evidence(rec("b", 10));
    st.set_evidence(rec("c", 10));
    assert_eq!(st.burn_evidence(2), Ok(()));
    assert!(st.get_evidence_by_id(2).is_none());
    assert_eq!(all_ids(&st), vec![1, 3]);
    st.set_evidence(rec("d", 10));
    st.set_evidence(rec("e", 10));
    assert!(st.get_evidence_by_id(2).is_none());
    assert_eq!(all_ids(&st), vec![1, 3, 4, 5]);
}

#[test]
fn filter_returns_exactly_the_matching_case_in_order() {
    let mut st = store_with(&[(10, "arson"), (20, "fraud")]);
    st.set_evidence(rec("a", 10));
    st.set_evidence(rec("b", 20));
    st.set_evidence(rec("c", 10));
    let tens = st.evidence_by_case_id(10);
    assert_eq!(tens.len(), 2);
    assert_eq!(tens[0].evidence_id, 1);
    assert_eq!(tens[0].description, "a");
    assert_eq!(tens[1].evidence_id, 3);
    assert_eq!(tens[1].description, "c");
    assert!(tens.iter().all(|o| o.case_id == 10));
    assert!(tens.iter().all(|o| o.case_title == Some(String::from("arson"))));
    let twenties = st.evidence_by_case_id(20);
    assert_eq!(twenties.len(), 1);
    assert_eq!(twenties[0].evidence_id, 2);
    assert!(st.evidence_by_case_id(99).is_empty());
}

#[test]
fn enrichment_tolerates_unknown_case() {
    let mut st = store_with(&[(10, "arson")]);
    st.set_evidence(rec("a", 55));
    let out = st.get_evidence_by_id(1).expect("record must be returned");
    assert_eq!(out.case_title, None);
    assert_eq!(out.description, "a");
    let listed = st.get_all_evidence();
    assert_eq!(listed.len(), 1);
    assert_eq!(listed[0].case_title, None);
    let filtered = st.evidence_by_case_id(55);
    assert_eq!(filtered.len(), 1);
    assert_eq!(filtered[0].case_title, None);
}

#[test]
fn sentinel_resolves_live_keys_only() {
    let mut st = store_with(&[]);
    st.set_evidence(rec("a", 10));
    st.set_evidence(rec("b", 10));
    assert_eq!(st.get_evidence_id(1), 1);
    assert_eq!(st.get_evidence_id(2), 2);
    assert_eq!(st.get_evidence_id(3), 0);
    assert_eq!(st.get_evidence_id(0), 0);
    assert_eq!(st.burn_evidence(1), Ok(()));
    assert_eq!(st.get_evidence_id(1), 0);
    assert_eq!(st.get_evidence_id(2), 2);
}

// The allocator is deliberately high-water-mark based: after creating ids
// 1, 2, 3 and deleting 2, the next creation takes id 4 — not 3, as a
// count-based allocator would — so a retired id is never re-issued.
#[test]
fn fourth_record_after_deletion_takes_id_four() {
    let mut st = store_with(&[]);
    st.set_evidence(rec("a", 10));
    st.set_evidence(rec("b", 10));
    st.set_evidence(rec("c", 10));
    assert_eq!(st.burn_evidence(2), Ok(()));
    st.set_evidence(rec("d", 10));
    assert_eq!(st.get_evidence_id(4), 4);
    assert_eq!(st.get_evidence_id(2), 0);
    assert_eq!(all_ids(&st), vec![1, 3, 4]);
    assert_eq!(st.get_evidence_by_id(4).unwrap().description, "d");
}

#[test]
fn update_replaces_the_whole_record_in_place() {
    let mut st = store_with(&[(10, "arson"), (20, "fraud")]);
    st.set_evidence(rec("a", 10));
    st.set_evidence(rec("b", 10));
    let replacement = EvidenceNFT {
        description: String::from("sworn statement"),
        owner: acct(3),
        file: digest(4),
        case_id: 20,
        status: Status::Voted,
    };
    assert_eq!(st.update_evidence(1, replacement), Ok(()));
    let out = st.get_evidence_by_id(1).unwrap();
    assert_eq!(out.evidence_id, 1);
    assert_eq!(out.description, "sworn statement");
    assert_eq!(out.owner, acct(3));
    assert_eq!(out.file, digest(4));
    assert_eq!(out.case_id, 20);
    assert_eq!(out.status, Status::Voted);
    assert_eq!(out.case_title, Some(String::from("fraud")));
    // The other record and the enumeration order are untouched.
    assert_eq!(all_ids(&st), vec![1, 2]);
    assert_eq!(st.get_evidence_by_id(2).unwrap().description, "b");
}

// No operation guards lifecycle transitions: replacement may move the
// status backwards, `Close` to `New` included. That looseness is the
// store's stated behaviour.
#[test]
fn status_moves_only_by_wholesale_replacement() {
    let mut st = store_with(&[]);
    st.set_evidence(rec("a", 10));
    assert_eq!(st.get_evidence_by_id(1).unwrap().status, Status::New);
    let mut closed = rec("a", 10);
    closed.status = Status::Close;
    assert_eq!(st.update_evidence(1, closed), Ok(()));
    assert_eq!(st.get_evidence_by_id(1).unwrap().status, Status::Close);
    let reopened = rec("a", 10);
    assert_eq!(st.update_evidence(1, reopened), Ok(()));
    assert_eq!(st.get_evidence_by_id(1).unwrap().status, Status::New);
}

#[test]
fn case_lookup_sets_and_replaces_titles() {
    let mut lk = CaseLookup::new();
    assert_eq!(lk.get_case_title(10), None);
    lk.set_case_title(10, String::from("arson"));
    lk.set_case_title(20, String::from("fraud"));
    assert_eq!(lk.get_case_title(10), Some(String::from("arson")));
    assert_eq!(lk.get_case_title(20), Some(String::from("fraud")));
    lk.set_case_title(10, String::from("theft"));
    assert_eq!(lk.get_case_title(10), Some(String::from("theft")));
    assert_eq!(lk.get_case_title(20), Some(String::from("fraud")));
    assert_eq!(lk.get_case_title(30), None);
}

#[test]
fn empty_store_reads_are_empty() {
    let st = store_with(&[(10, "arson")]);
    assert!(st.get_all_evidence().is_empty());
    assert!(st.evidence_by_case_id(10).is_empty());
    assert!(st.get_evidence_by_id(1).is_none());
    assert_eq!(st.get_evidence_id(1), 0);
}
