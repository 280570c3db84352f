use lime_bit::registry::DownloadRegistry;

fn entry(gid: &str, id: u64) -> (String, u64) {
    (gid.to_string(), id)
}

#[test]
fn lookup_after_record() {
    let mut reg: DownloadRegistry<u64> = DownloadRegistry::new();
    assert_eq!(reg.lookup("aa").unwrap_err().message(), "unknown download id: aa");
    reg.record("aa".to_string(), 1);
    reg.record("bb".to_string(), 2);
    reg.record("aa".to_string(), 3);
    assert_eq!(reg.lookup("aa").unwrap(), 3);
    assert_eq!(reg.lookup("bb").unwrap(), 2);
}

#[test]
fn removal_of_unknown_download_fails() {
    let mut reg: DownloadRegistry<u64> = DownloadRegistry::new();
    let err = reg.begin_removal("zz").unwrap_err();
    assert_eq!(err.id, "zz");
    assert_eq!(reg.reconcile(&vec![entry("zz", 9)]), vec![true]);
}

#[test]
fn removed_download_is_not_resurrected_by_a_poll() {
    let mut reg: DownloadRegistry<u64> = DownloadRegistry::new();
    reg.record("aa".to_string(), 1);
    reg.record("bb".to_string(), 2);
    assert_eq!(reg.begin_removal("aa").unwrap(), 1);
    // the engine still lists `aa` while its worker shuts down
    let shown = reg.reconcile(&vec![entry("aa", 1), entry("bb", 2)]);
    assert_eq!(shown, vec![false, true]);
    assert_eq!(reg.lookup("aa").unwrap(), 1);
    // once the engine stops listing it, it is forgotten
    let shown = reg.reconcile(&vec![entry("bb", 2)]);
    assert_eq!(shown, vec![true]);
    assert!(reg.lookup("aa").is_err());
    // and if it shows up again later, it is a normal row
    assert_eq!(reg.reconcile(&vec![entry("aa", 7)]), vec![true]);
    assert_eq!(reg.lookup("aa").unwrap(), 7);
    assert!(reg.lookup("bb").is_err());
}

#[test]
fn reconcile_records_listed_downloads() {
    let mut reg: DownloadRegistry<u64> = DownloadRegistry::new();
    let shown = reg.reconcile(&vec![entry("x", 1), entry("y", 2), entry("x", 3)]);
    assert_eq!(shown, vec![true, true, true]);
    assert_eq!(reg.lookup("x").unwrap(), 3);
    assert_eq!(reg.lookup("y").unwrap(), 2);
    assert_eq!(reg.reconcile(&vec![]), Vec::<bool>::new());
    assert!(reg.lookup("x").is_err());
}

#[test]
fn removing_twice_keeps_one_pending_entry() {
    let mut reg: DownloadRegistry<u64> = DownloadRegistry::new();
    reg.record("aa".to_string(), 1);
    assert!(reg.begin_removal("aa").is_ok());
    assert!(reg.begin_removal("aa").is_ok());
    assert_eq!(reg.reconcile(&vec![entry("aa", 1)]), vec![false]);
    assert_eq!(reg.reconcile(&vec![]), Vec::<bool>::new());
    assert_eq!(reg.reconcile(&vec![entry("aa", 1)]), vec![true]);
}
