use crusty::registry::{TargetMap, TargetStatus};
use crusty::relay::Session;

#[test]
fn from_parses_and_trims() {
    let m = TargetMap::from(String::from("  a:1 , b:2 ,a:1"));
    assert_eq!(m.len(), 2);
    let addrs = m.addresses();
    assert_eq!(addrs, vec![String::from("a:1"), String::from("b:2")]);
    assert_eq!(
        m.status_of_address(&String::from("a:1")),
        Some(TargetStatus::Unknown)
    );
    assert_eq!(
        m.status_of_address(&String::from("b:2")),
        Some(TargetStatus::Unknown)
    );
}

#[test]
fn from_trims_all_unicode_whitespace() {
    let m = TargetMap::from(String::from("\u{A0}\t a:1 \u{3000},\u{2003}b:2\u{0C}"));
    assert_eq!(m.addresses(), vec![String::from("a:1"), String::from("b:2")]);
}

#[test]
fn from_empty_string_registers_one_empty_entry() {
    let m = TargetMap::from(String::new());
    assert_eq!(m.addresses(), vec![String::new()]);
}

#[test]
fn from_keeps_first_occurrence_order() {
    let m = TargetMap::from(String::from("c,b,a,b,c"));
    assert_eq!(
        m.addresses(),
        vec![String::from("c"), String::from("b"), String::from("a")]
    );
}

#[test]
fn sweep_leaves_no_target_unknown() {
    let mut m = TargetMap::from(String::from("a,b"));
    let r = m.apply_sweep(&vec![true, false]);
    assert_eq!(r, Err(vec![String::from("b")]));
    assert_eq!(
        m.status_of_address(&String::from("a")),
        Some(TargetStatus::Alive)
    );
    assert_eq!(
        m.status_of_address(&String::from("b")),
        Some(TargetStatus::Dead)
    );
    for a in m.addresses() {
        assert_ne!(m.status_of_address(&a), Some(TargetStatus::Unknown));
    }
}

#[test]
fn sweep_all_successes_is_ok() {
    let mut m = TargetMap::from(String::from("a,b,c"));
    assert_eq!(m.apply_sweep(&vec![true, true, true]), Ok(()));
}

#[test]
fn sweep_reports_every_failed_address_in_order() {
    let mut m = TargetMap::from(String::from("a,b,c"));
    let r = m.apply_sweep(&vec![false, true, false]);
    assert_eq!(r, Err(vec![String::from("a"), String::from("c")]));
}

#[test]
fn pick_with_no_live_target_always_fails() {
    let m = TargetMap::from(String::from("a,b"));
    for _ in 0..20 {
        assert_eq!(m.pick(), Err(String::from("No live targets")));
    }
    let mut m = TargetMap::from(String::from("a,b"));
    m.apply_sweep(&vec![false, false]).unwrap_err();
    for _ in 0..20 {
        assert_eq!(m.pick(), Err(String::from("No live targets")));
    }
}

#[test]
fn pick_with_one_live_target_always_returns_it() {
    let mut m = TargetMap::from(String::from("a,b,c"));
    let _ = m.apply_sweep(&vec![false, true, false]);
    for _ in 0..50 {
        assert_eq!(m.pick(), Ok(String::from("b")));
    }
}

#[test]
fn pick_spreads_over_all_live_targets() {
    let mut m = TargetMap::from(String::from("a,b,c"));
    m.apply_sweep(&vec![true, true, true]).unwrap();
    let mut counts = [0usize; 3];
    for _ in 0..600 {
        let a = m.pick().unwrap();
        match a.as_str() {
            "a" => counts[0] += 1,
            "b" => counts[1] += 1,
            "c" => counts[2] += 1,
            other => panic!("picked an unconfigured address: {}", other),
        }
    }
    for c in counts {
        assert!(c >= 100, "selection is far from uniform: {:?}", counts);
    }
}

#[test]
fn dead_target_is_never_selected_after_the_sweep() {
    let mut m = TargetMap::from(String::from("a,b"));
    m.apply_sweep(&vec![true, true]).unwrap();
    let _ = m.pick().unwrap();
    let r = m.apply_sweep(&vec![false, true]);
    assert_eq!(r, Err(vec![String::from("a")]));
    for _ in 0..50 {
        assert_eq!(m.pick(), Ok(String::from("b")));
    }
}

#[test]
fn established_session_keeps_its_target_when_it_dies() {
    let mut m = TargetMap::from(String::from("a"));
    m.apply_sweep(&vec![true]).unwrap();
    let picked = m.pick().unwrap();
    let s = Session::new(picked.clone(), 1024);
    m.apply_sweep(&vec![false]).unwrap_err();
    assert_eq!(s.target(), picked.as_str());
    assert_eq!(m.pick(), Err(String::from("No live targets")));
}

#[test]
fn unconfigured_address_has_no_status() {
    let m = TargetMap::from(String::from("a,b"));
    assert_eq!(m.status_of_address(&String::from("missing")), None);
}
