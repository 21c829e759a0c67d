use shikane::head::{WlBaseMode, WlGenericId, WlMode};
use shikane::matching::{collect_modes, compare_mode_refresh, sort_modes};
use shikane::mode::Mode;
use shikane::store::{WlStore, WlStoreError};

#[test]
fn remove_mode_purges_references() {
    let mut s = WlStore::new();
    s.insert_head(1);
    s.insert_head(2);
    assert_eq!(s.insert_mode(1, 10), Ok(()));
    assert_eq!(s.insert_mode(1, 11), Ok(()));
    assert_eq!(s.insert_mode(2, 20), Ok(()));
    assert_eq!(s.set_current_mode(1, Some(10)), Ok(()));
    assert_eq!(s.remove_mode(10), Ok(()));
    let h = s.head(1).unwrap();
    assert_eq!(h.modes, vec![11]);
    assert_eq!(h.current_mode, None);
    assert_eq!(s.head(2).unwrap().modes, vec![20]);
    assert_eq!(s.remove_mode(10), Err(WlStoreError::ReleaseOutputMode { mode_id: 10 }));
    assert_eq!(s.insert_mode(3, 30), Err(WlStoreError::HeadNotFound { head_id: 3 }));
}

#[test]
fn store_ids_increase_and_export() {
    let mut s = WlStore::new();
    s.insert_head(5);
    s.insert_mode(5, 50).unwrap();
    s.set_mode_base(50, WlBaseMode { width: 800, height: 600, refresh: 60000, preferred: true })
        .unwrap();
    s.set_current_mode(5, Some(50)).unwrap();
    let heads = s.export().unwrap();
    assert_eq!(heads.len(), 1);
    assert_eq!(heads[0].id, WlGenericId(1));
    assert_eq!(heads[0].modes.len(), 1);
    assert_eq!(heads[0].modes[0].id, WlGenericId(2));
    assert_eq!(heads[0].current_mode.unwrap().base.width, 800);
    s.remove_head(5);
    assert_eq!(s.heads_count(), 0);
}

fn m(id: usize, w: i32, h: i32, r: i32, preferred: bool) -> WlMode {
    WlMode { base: WlBaseMode { width: w, height: h, refresh: r, preferred }, id: WlGenericId(id) }
}

#[test]
fn refresh_match_boundary() {
    let mode = m(1, 1920, 1080, 60000, false);
    assert_eq!(compare_mode_refresh(60500, &mode), (true, 500));
    assert_eq!(compare_mode_refresh(59500, &mode), (true, 500));
    assert_eq!(compare_mode_refresh(60501, &mode), (false, 501));
    assert_eq!(compare_mode_refresh(59499, &mode), (false, 501));
}

#[test]
fn modes_sort_by_pixels_then_size_then_refresh() {
    let mut modes = vec![
        m(1, 1920, 1080, 60000, false),
        m(2, 1280, 720, 60000, false),
        m(3, 1920, 1080, 30000, false),
        m(4, 1080, 1920, 60000, false),
    ];
    sort_modes(&mut modes);
    let ids: Vec<usize> = modes.iter().map(|m| m.id.0).collect();
    assert_eq!(ids, vec![2, 4, 3, 1]);
}

#[test]
fn collect_modes_by_target() {
    let modes = vec![
        m(1, 1920, 1080, 60000, false),
        m(2, 1280, 720, 60000, true),
        m(3, 1920, 1080, 59940, false),
        m(4, 3840, 2160, 30000, false),
    ];
    let ids = |v: Vec<WlMode>| v.iter().map(|m| m.id.0).collect::<Vec<_>>();
    assert_eq!(ids(collect_modes(&modes, Mode::Best).unwrap()), vec![4]);
    assert_eq!(ids(collect_modes(&modes, Mode::Preferred).unwrap()), vec![2]);
    assert_eq!(ids(collect_modes(&modes, Mode::WiHe(1920, 1080)).unwrap()), vec![1, 3]);
    assert_eq!(ids(collect_modes(&modes, Mode::WiHeRe(1920, 1080, 59900)).unwrap()), vec![1, 3]);
    assert_eq!(ids(collect_modes(&modes, Mode::WiHeRe(1920, 1080, 59450)).unwrap()), vec![3]);
    assert!(collect_modes(&modes, Mode::WiHeReCustom(1, 1, 1)).is_none());
    assert!(collect_modes(&vec![], Mode::Best).unwrap().is_empty());
}

#[test]
fn remove_mode_errors_leave_store() {
    let mut s = WlStore::new();
    s.insert_head(1);
    s.insert_mode(1, 10).unwrap();
    assert_eq!(s.remove_mode(99), Err(WlStoreError::ReleaseOutputMode { mode_id: 99 }));
    assert_eq!(s.head(1).unwrap().modes, vec![10]);
    s.remove_head(1);
    assert_eq!(s.remove_mode(10), Err(WlStoreError::HeadNotFound { head_id: 1 }));
    s.insert_head(1);
    assert_eq!(s.insert_mode(1, 11), Ok(()));
}
