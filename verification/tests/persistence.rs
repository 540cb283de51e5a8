use ir_affinity::errors::AffinityError;
use ir_affinity::persistence::{CpuSelections, PersistentStore, DEFAULT_SIMULATOR_PROCESS};

#[test]
fn toggle_fails_exactly_out_of_bounds() {
    let mut selections = CpuSelections::new(4);
    assert!(selections.toggle_selection(0, true).is_ok());
    assert!(selections.toggle_selection(3, true).is_ok());
    let err = selections.toggle_selection(4, true);
    assert!(matches!(
        err,
        Err(AffinityError::SelectionOutOfBounds { cpu_id: 4, cpu_count: 4 })
    ));
    assert!(matches!(
        selections.toggle_selection(100, false),
        Err(AffinityError::SelectionOutOfBounds { cpu_id: 100, cpu_count: 4 })
    ));
    // A failed toggle leaves the selection untouched.
    assert!(selections.get_is_selected(&0));
    assert!(selections.get_is_selected(&3));
    assert!(!selections.get_is_selected(&1));
}

#[test]
fn toggle_is_idempotent() {
    let mut once = CpuSelections::new(4);
    once.toggle_selection(2, true).unwrap();
    let mut twice = CpuSelections::new(4);
    twice.toggle_selection(2, true).unwrap();
    twice.toggle_selection(2, true).unwrap();
    assert!(once == twice);
    // Deactivating an absent index is a no-op, not an error.
    twice.toggle_selection(1, false).unwrap();
    twice.toggle_selection(1, false).unwrap();
    assert!(once == twice);
}

#[test]
fn equality_ignores_capacity() {
    let a = CpuSelections::new_preselected(vec![0, 2], 4);
    let b = CpuSelections::new_preselected(vec![2, 0, 2], 8);
    assert!(a == b);
    assert_eq!(a.get_cpu_count(), 4);
    assert_eq!(b.get_cpu_count(), 8);
    let c = CpuSelections::new_preselected(vec![0], 4);
    assert!(a != c);
}

#[test]
fn display_three_way_rule() {
    let empty = CpuSelections::new(4);
    assert_eq!(empty.get_display_string(), "CPUs: None");

    let full = CpuSelections::new_preselected(vec![0, 1, 2, 3], 4);
    assert_eq!(full.get_display_string(), "CPUs: All (4)");

    let partial = CpuSelections::new_preselected(vec![2, 0], 4);
    assert_eq!(partial.get_display_string(), "CPUs: 0, 2");

    let wide = CpuSelections::new_all_selected(12);
    assert_eq!(wide.get_display_string(), "CPUs: All (12)");

    let triple = CpuSelections::new_preselected(vec![10, 3, 7], 16);
    assert_eq!(triple.get_display_string(), "CPUs: 3, 7, 10");
}

#[test]
fn nonselected_string() {
    assert_eq!(CpuSelections::get_nonselected_string(), "CPUs: None");
}

#[test]
fn masks_of_selections() {
    assert_eq!(CpuSelections::new_all_selected(2).to_mask(), 0b11);
    assert_eq!(CpuSelections::new_preselected(vec![0, 2], 4).to_mask(), 0b101);
    assert_eq!(CpuSelections::new(8).to_mask(), 0);
}

#[test]
fn from_rows_synthesizes_default() {
    let store = PersistentStore::from_rows(None, vec![], 4).unwrap();
    assert_eq!(store.process, DEFAULT_SIMULATOR_PROCESS);
    assert!(store.selections == CpuSelections::new_all_selected(4));
    assert_eq!(store.selections.get_cpu_count(), 4);
}

#[test]
fn from_rows_reads_persisted_rows() {
    let store =
        PersistentStore::from_rows(Some(String::from("game.exe")), vec![0, 2], 4).unwrap();
    assert_eq!(store.process, "game.exe");
    assert!(store.selections == CpuSelections::new_preselected(vec![0, 2], 4));
}

#[test]
fn from_rows_rejects_malformed_indices() {
    let negative = PersistentStore::from_rows(Some(String::from("game.exe")), vec![0, -1], 4);
    assert!(matches!(
        negative,
        Err(AffinityError::MalformedCpuIndex { value: -1 })
    ));
    let huge =
        PersistentStore::from_rows(Some(String::from("game.exe")), vec![1_000_000_000_000], 4);
    assert!(matches!(
        huge,
        Err(AffinityError::MalformedCpuIndex { value: 1_000_000_000_000 })
    ));
}

#[test]
fn save_rows_mirror_the_selection() {
    let store = PersistentStore {
        process: String::from("game.exe"),
        selections: CpuSelections::new_preselected(vec![2, 0, 5], 8),
    };
    assert_eq!(store.save_rows().unwrap(), vec![0, 2, 5]);
}

#[test]
fn save_rows_reject_oversized_indices() {
    if usize::BITS == 64 {
        let big = (u32::MAX as usize) + 1;
        let store = PersistentStore {
            process: String::from("game.exe"),
            selections: CpuSelections::new_preselected(vec![big], 8),
        };
        assert!(matches!(
            store.save_rows(),
            Err(AffinityError::SelectionTooLarge { cpu_id }) if cpu_id == big
        ));
    }
}

#[test]
fn configuration_file_name() {
    match PersistentStore::get_configuration_file() {
        Ok(path) => assert!(path.ends_with("/store.sqlite")),
        Err(e) => assert!(matches!(e, AffinityError::MissingConfigurationDirectory)),
    }
}
