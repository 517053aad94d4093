use gpbeam::detect::{camera_address, newly_appeared};

fn mounts(list: &[&str]) -> Vec<String> {
    list.iter().map(|s| s.to_string()).collect()
}

#[test]
fn detects_only_newly_appeared_mounts() {
    let before = mounts(&["/Volumes/A"]);
    let now = mounts(&["/Volumes/A", "/Volumes/GOPRO"]);
    let mut appeared = newly_appeared(&before, &now);
    appeared.sort();
    assert_eq!(appeared, vec!["/Volumes/GOPRO".to_string()]);
}

#[test]
fn no_change_yields_nothing() {
    let s = mounts(&["/Volumes/A"]);
    assert!(newly_appeared(&s, &s).is_empty());
}

#[test]
fn a_mount_that_went_away_is_not_reported() {
    assert!(newly_appeared(&mounts(&["/Volumes/A"]), &mounts(&[])).is_empty());
}

#[test]
fn a_camera_answers_on_the_network_of_usb() {
    assert_eq!(camera_address(172, 20, 110), Some("172.20.110.51".to_string()));
    assert_eq!(camera_address(172, 29, 0), Some("172.29.0.51".to_string()));
    assert_eq!(camera_address(172, 19, 1), None);
    assert_eq!(camera_address(172, 30, 1), None);
    assert_eq!(camera_address(10, 25, 1), None);
}
