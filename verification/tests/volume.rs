use bevy_game::volume::{
    press_volume_button, read_volume_level, step_volume, volume_label, VolumeAction,
    INITIAL_VOLUME, MAX_VOLUME, MIN_VOLUME, VOLUME_STEP,
};

/// What a press reads from a label, written as the menu's system writes it with `std`.
fn std_read(text: &str) -> Option<i32> {
    text.replace("Volume: ", "").replace("%", "").trim().parse::<i32>().ok()
}

#[test]
fn initial_label_is_full_volume() {
    assert_eq!(INITIAL_VOLUME, 100);
    assert_eq!(volume_label(INITIAL_VOLUME), "Volume: 100%");
}

#[test]
fn label_writes_decimal() {
    assert_eq!(volume_label(80), "Volume: 80%");
    assert_eq!(volume_label(0), "Volume: 0%");
    assert_eq!(volume_label(7), "Volume: 7%");
    assert_eq!(volume_label(-20), "Volume: -20%");
    assert_eq!(volume_label(i32::MAX), "Volume: 2147483647%");
    assert_eq!(volume_label(i32::MIN), "Volume: -2147483648%");
}

#[test]
fn label_matches_format() {
    let mut level: i64 = -3000;
    while level <= 3000 {
        let l = level as i32;
        assert_eq!(volume_label(l), format!("Volume: {}%", l));
        level += 7;
    }
    for l in [i32::MIN, i32::MIN + 1, -1, 9, 10, 99, 100, 101, 1000, i32::MAX - 1, i32::MAX] {
        assert_eq!(volume_label(l), format!("Volume: {}%", l));
    }
}

#[test]
fn reads_plain_labels() {
    assert_eq!(read_volume_level("Volume: 100%"), Some(100));
    assert_eq!(read_volume_level("Volume: 0%"), Some(0));
    assert_eq!(read_volume_level("Volume: -40%"), Some(-40));
    assert_eq!(read_volume_level("Volume: +7%"), Some(7));
    assert_eq!(read_volume_level("Volume: 007%"), Some(7));
    assert_eq!(read_volume_level("50"), Some(50));
}

#[test]
fn reads_around_white_space_and_repeats() {
    assert_eq!(read_volume_level("Volume:  42 % "), Some(42));
    assert_eq!(read_volume_level("Volume: Volume: 5%%"), Some(5));
    assert_eq!(read_volume_level("\tVolume: 30%\u{3000}"), Some(30));
}

#[test]
fn refuses_labels_without_a_level() {
    assert_eq!(read_volume_level(""), None);
    assert_eq!(read_volume_level("Volume: %"), None);
    assert_eq!(read_volume_level("Volume: -%"), None);
    assert_eq!(read_volume_level("Volume: +%"), None);
    assert_eq!(read_volume_level("Volume: abc%"), None);
    assert_eq!(read_volume_level("Volume: 4 2%"), None);
    assert_eq!(read_volume_level("volume: 42%"), None);
    assert_eq!(read_volume_level("Volume: ٤٢%"), None);
}

#[test]
fn reads_the_ends_of_i32() {
    assert_eq!(read_volume_level("Volume: 2147483647%"), Some(i32::MAX));
    assert_eq!(read_volume_level("Volume: -2147483648%"), Some(i32::MIN));
    assert_eq!(read_volume_level("Volume: 2147483648%"), None);
    assert_eq!(read_volume_level("Volume: -2147483649%"), None);
    assert_eq!(read_volume_level("Volume: 99999999999999999999%"), None);
    assert_eq!(read_volume_level("Volume: 00000000000000000000012%"), Some(12));
}

#[test]
fn reads_as_std_does() {
    let samples = [
        "Volume: 100%", "Volume: 80%", "Volume:80%", "Volume: 8 0%", "  12  ", "Volume: \n60%\n",
        "%%%", "Volume: Volume: ", "VVolume: 1%", "Volume: -0%", "Volume: +-1%", "Volume: 1e3%",
        "Volume: ½%", "Volume: \u{2003}77\u{85}%", "Volume: 3000000000%", "Volume: -2147483648",
        "Volume: 2147483647 %", "%Volume: %9%", "Vo%lume: 4%", "+", "-", "0",
    ];
    for s in samples {
        assert_eq!(read_volume_level(s), std_read(s), "label {:?}", s);
    }
}

#[test]
fn steps_move_by_twenty_and_stop_at_the_ends() {
    assert_eq!(VOLUME_STEP, 20);
    assert_eq!(step_volume(0, VolumeAction::Up), 20);
    assert_eq!(step_volume(80, VolumeAction::Up), 100);
    assert_eq!(step_volume(90, VolumeAction::Up), 100);
    assert_eq!(step_volume(100, VolumeAction::Up), MAX_VOLUME);
    assert_eq!(step_volume(100, VolumeAction::Down), 80);
    assert_eq!(step_volume(10, VolumeAction::Down), 0);
    assert_eq!(step_volume(0, VolumeAction::Down), MIN_VOLUME);
    // outside the percentage a press moves towards it
    assert_eq!(step_volume(-50, VolumeAction::Up), -30);
    assert_eq!(step_volume(150, VolumeAction::Down), 130);
    assert_eq!(step_volume(150, VolumeAction::Up), 100);
    assert_eq!(step_volume(-50, VolumeAction::Down), 0);
}

#[test]
fn press_rewrites_the_label() {
    assert_eq!(
        press_volume_button("Volume: 100%", VolumeAction::Down),
        Some((80, "Volume: 80%".to_string()))
    );
    assert_eq!(
        press_volume_button("Volume: 100%", VolumeAction::Up),
        Some((100, "Volume: 100%".to_string()))
    );
    assert_eq!(
        press_volume_button("Volume: 10%", VolumeAction::Down),
        Some((0, "Volume: 0%".to_string()))
    );
    assert_eq!(press_volume_button("Volume: ?%", VolumeAction::Up), None);
    assert_eq!(press_volume_button("", VolumeAction::Down), None);
}

#[test]
fn five_presses_cross_the_whole_range() {
    let mut label = volume_label(INITIAL_VOLUME);
    for expected in [80, 60, 40, 20, 0, 0] {
        let (level, next) = press_volume_button(&label, VolumeAction::Down).unwrap();
        assert_eq!(level, expected);
        label = next;
    }
    for expected in [20, 40, 60, 80, 100, 100] {
        let (level, next) = press_volume_button(&label, VolumeAction::Up).unwrap();
        assert_eq!(level, expected);
        label = next;
    }
    assert_eq!(label, "Volume: 100%");
}

#[test]
fn law_label_reads_back() {
    let mut level: i64 = i32::MIN as i64;
    while level <= i32::MAX as i64 {
        let l = level as i32;
        assert_eq!(read_volume_level(&volume_label(l)), Some(l));
        level += 9_999_991;
    }
    for l in [i32::MIN, -1, 0, 1, 100, i32::MAX] {
        assert_eq!(read_volume_level(&volume_label(l)), Some(l));
    }
}

#[test]
fn law_presses_keep_percentage() {
    let mut label = volume_label(INITIAL_VOLUME);
    let mut seed: u32 = 12345;
    for _ in 0..500 {
        seed = seed.wrapping_mul(1_103_515_245).wrapping_add(12_345);
        let action = if (seed >> 16) & 1 == 0 { VolumeAction::Up } else { VolumeAction::Down };
        let before = read_volume_level(&label).unwrap();
        let (level, next) = press_volume_button(&label, action).unwrap();
        assert!((MIN_VOLUME..=MAX_VOLUME).contains(&level));
        match action {
            VolumeAction::Up => assert!(level >= before),
            VolumeAction::Down => assert!(level <= before),
        }
        assert_eq!(read_volume_level(&next), Some(level));
        label = next;
    }
}

#[test]
fn law_step_keeps_percentage() {
    for level in MIN_VOLUME..=MAX_VOLUME {
        for action in [VolumeAction::Up, VolumeAction::Down] {
            let r = step_volume(level, action);
            assert!((MIN_VOLUME..=MAX_VOLUME).contains(&r));
        }
    }
}
