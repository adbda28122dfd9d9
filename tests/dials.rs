use playmix::dial::{rotate_cursor, DialState, VolumeStep, VolumeTarget};

#[test]
fn forward_from_last_wraps_to_first() {
    assert_eq!(rotate_cursor(3, true, 4), 0);
    assert_eq!(rotate_cursor(0, true, 1), 0);
    assert_eq!(rotate_cursor(1, true, 4), 2);
}

#[test]
fn backward_from_first_wraps_to_last() {
    assert_eq!(rotate_cursor(0, false, 4), 3);
    assert_eq!(rotate_cursor(0, false, 1), 0);
    assert_eq!(rotate_cursor(2, false, 4), 1);
}

#[test]
fn cursor_beyond_a_shrunk_list_is_brought_back() {
    assert_eq!(rotate_cursor(5, false, 3), 2);
    assert_eq!(rotate_cursor(5, true, 3), 0);
    assert_eq!(rotate_cursor(usize::MAX, true, 2), 0);
}

#[test]
fn browsing_binds_the_stream_under_the_cursor() {
    let mut dial = DialState::new();
    dial.press();
    let live = vec![Some(42), None, Some(7)];
    dial.browse(1, &live);
    assert_eq!((dial.ordinal, dial.bound), (1, 42));
    dial.browse(2, &live);
    assert_eq!((dial.ordinal, dial.bound), (2, 0));
    dial.browse(1, &live);
    assert_eq!((dial.ordinal, dial.bound), (3, 7));
    dial.browse(1, &live);
    assert_eq!((dial.ordinal, dial.bound), (0, 0));
    dial.browse(-1, &live);
    assert_eq!((dial.ordinal, dial.bound), (3, 7));
    dial.browse(0, &vec![Some(9)]);
    assert_eq!((dial.ordinal, dial.bound), (1, 9));
}

#[test]
fn releasing_keeps_the_cursor() {
    let mut dial = DialState::new();
    dial.press();
    dial.browse(1, &vec![Some(5)]);
    dial.release();
    assert!(!dial.browsing);
    assert_eq!((dial.ordinal, dial.bound), (1, 5));
}

#[test]
fn volume_steps_are_five_percent_per_tick() {
    let mut dial = DialState::new();
    assert_eq!(
        dial.volume_step(2),
        VolumeStep { target: VolumeTarget::Master, percent: 10, raise: true }
    );
    dial.bound = 42;
    assert_eq!(
        dial.volume_step(-3),
        VolumeStep { target: VolumeTarget::Stream(42), percent: 15, raise: false }
    );
    assert_eq!(dial.volume_step(i16::MIN).percent, 163840);
    assert_eq!(dial.volume_step(0), VolumeStep { target: VolumeTarget::Stream(42), percent: 0, raise: false });
}
