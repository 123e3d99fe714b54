use luxo_core::quirks::Planes;
use luxo_core::quirks::quirks_for_driver;

#[test]
fn nvidia_match_is_case_insensitive_substring() {
    let q = quirks_for_driver(&b"nvidia-drm".to_vec(), &b"".to_vec());
    assert!(q.strip_overlay_planes);
    let q = quirks_for_driver(&b"something".to_vec(), &b"NVIDIA Corporation driver".to_vec());
    assert!(q.strip_overlay_planes);
    let q = quirks_for_driver(&b"NViDiA".to_vec(), &b"".to_vec());
    assert!(q.strip_overlay_planes);
    let q = quirks_for_driver(&b"i915".to_vec(), &b"Intel Graphics".to_vec());
    assert!(!q.strip_overlay_planes);
    // A near miss does not match.
    let q = quirks_for_driver(&b"nvidi".to_vec(), &b"nvdia".to_vec());
    assert!(!q.strip_overlay_planes);
}

#[test]
fn claim_strips_overlays_only_under_the_quirk() {
    let planes = Planes { primary: vec![1], cursor: vec![2], overlay: vec![3, 4, 5] };
    let q = quirks_for_driver(&b"nvidia".to_vec(), &b"".to_vec());
    let claimed = planes.claim(q);
    assert_eq!(claimed.primary, vec![1]);
    assert_eq!(claimed.cursor, vec![2]);
    assert_eq!(claimed.overlay, Vec::<u32>::new());

    let planes = Planes { primary: vec![1], cursor: vec![2], overlay: vec![3, 4, 5] };
    let q = quirks_for_driver(&b"amdgpu".to_vec(), &b"".to_vec());
    let claimed = planes.claim(q);
    assert_eq!(claimed.overlay, vec![3, 4, 5]);
}
