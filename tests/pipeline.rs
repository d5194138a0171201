use librpysight::configuration::{AppConfig, Bidirectionality, InputChannel};
use librpysight::event_stream::{Event, EventStream};
use librpysight::frame_buffers::{FrameBuffers, COLOR_FULL};
use librpysight::point_cloud_renderer::{render_due, AppState, ChannelNames, ProcessedEvent};
use librpysight::snakes::{ImageCoor, Snake};

fn two_by_two_config() -> AppConfig {
    AppConfig {
        rows: 2,
        columns: 2,
        planes: 0,
        scan_period: 1_000_000,
        laser_period: 12_500,
        tag_period: 0,
        bidir: Bidirectionality::Unidir,
        fill_fraction: 10_000,
        frame_dead_time: 0,
        line_shift: 0,
        pmt1_ch: InputChannel::new(1),
        pmt2_ch: InputChannel::new(5),
        pmt3_ch: InputChannel::new(-1),
        pmt4_ch: InputChannel::new(-1),
        laser_ch: InputChannel::new(6),
        frame_ch: InputChannel::new(3),
        line_ch: InputChannel::new(2),
        taglens_ch: InputChannel::new(4),
        rolling_avg: 1,
        increment_color_by: 300_000,
        filename: String::from("frames.arrow"),
    }
}

fn app_for(c: &AppConfig) -> AppState {
    assert_eq!(c.validate(), Ok(()));
    let g = Snake::geometry_from_config(c);
    let p = Snake::linear_row_profile(g.active, c.columns);
    AppState::new(c, &p)
}

fn ev(type_: u8, missed: u16, channel: i32, time: i64) -> Event {
    Event::new(type_, missed, channel, time)
}

fn normalized(p: ImageCoor, c: &AppConfig) -> (f32, f32, f32) {
    (p.x as f32 / c.columns as f32, p.y as f32 / c.rows as f32, p.z as f32)
}

#[test]
fn single_line_single_photon() {
    let c = two_by_two_config();
    let mut app = app_for(&c);
    assert_eq!(app.event_to_coordinate(ev(0, 0, 2, 0)), ProcessedEvent::NoOp);
    assert_eq!(app.line_count(), 1);
    match app.event_to_coordinate(ev(0, 0, 1, 250_000)) {
        ProcessedEvent::Displayed(p, ch) => {
            assert_eq!(normalized(p, &c), (0.0, 0.0, 0.0));
            assert_eq!(ch, 0);
        }
        other => panic!("unexpected {:?}", other),
    }
}

#[test]
fn two_rows_fill_a_frame() {
    let c = two_by_two_config();
    let mut app = app_for(&c);
    assert_eq!(app.event_to_coordinate(ev(0, 0, 2, 0)), ProcessedEvent::NoOp);
    assert_eq!(app.event_to_coordinate(ev(0, 0, 2, 1_000_000)), ProcessedEvent::NoOp);
    match app.event_to_coordinate(ev(0, 0, 1, 1_500_000)) {
        ProcessedEvent::Displayed(p, ch) => {
            assert_eq!(normalized(p, &c), (0.0, 0.5, 0.0));
            assert_eq!(ch, 0);
        }
        other => panic!("unexpected {:?}", other),
    }
    assert_eq!(app.event_to_coordinate(ev(0, 0, 2, 2_000_000)), ProcessedEvent::LineNewFrame);
    assert_eq!(app.line_count(), 0);
    assert!(app.lines().is_empty());
    assert_eq!(app.snake.state.frame_origin, 2_000_000);
}

#[test]
fn photon_beyond_frame_triggers_recovery() {
    let c = two_by_two_config();
    let mut app = app_for(&c);
    assert_eq!(app.event_to_coordinate(ev(0, 0, 2, 0)), ProcessedEvent::NoOp);
    assert_eq!(app.event_to_coordinate(ev(0, 0, 1, 10_000_000)), ProcessedEvent::PhotonNewFrame);
}

#[test]
fn recovery_scans_to_next_sync() {
    let c = two_by_two_config();
    let mut app = app_for(&c);
    let first = app.advance_till_first_frame_line(Some(vec![ev(0, 0, 1, 5), ev(0, 0, 2, 0)]));
    assert_eq!(first, Some(vec![]));
    let events = vec![
        ev(0, 0, 1, 10_000_000),
        ev(0, 0, 1, 10_000_100),
        ev(1, 0, 2, 10_000_200),
        ev(0, 0, 2, 12_000_000),
        ev(0, 0, 1, 12_100_000),
    ];
    let left = app.populate_single_frame(Some(events));
    assert_eq!(left, Some(vec![ev(0, 0, 1, 12_100_000)]));
    assert_eq!(app.line_count(), 1);
    assert_eq!(app.snake.state.frame_origin, 12_000_000);
    assert!(!app.awaiting_sync);
}

#[test]
fn search_continues_over_batches() {
    let c = two_by_two_config();
    let mut app = app_for(&c);
    assert_eq!(app.advance_till_first_frame_line(None), None);
    assert_eq!(app.populate_single_frame(Some(vec![ev(0, 0, 1, 5)])), None);
    assert!(app.awaiting_sync);
    let left = app.populate_single_frame(Some(vec![ev(0, 0, 3, 700), ev(0, 0, 1, 800)]));
    assert_eq!(left, Some(vec![ev(0, 0, 1, 800)]));
    assert_eq!(app.line_count(), 0);
    assert_eq!(app.snake.state.frame_origin, 700);
}

#[test]
fn overflow_event_discarded() {
    let c = two_by_two_config();
    let mut app = app_for(&c);
    assert_eq!(app.event_to_coordinate(ev(1, 5, 1, 500_000)), ProcessedEvent::NoOp);
    app.event_to_coordinate(ev(0, 0, 2, 0));
    assert_eq!(app.event_to_coordinate(ev(1, 5, 1, 500_000)), ProcessedEvent::NoOp);
    assert_eq!(app.event_to_coordinate(ev(1, 5, 2, 500_000)), ProcessedEvent::NoOp);
    assert_eq!(app.line_count(), 1);
}

#[test]
fn unknown_channel_ignored() {
    let c = two_by_two_config();
    let mut app = app_for(&c);
    assert_eq!(app.event_to_coordinate(ev(0, 0, 99, 500_000)), ProcessedEvent::NoOp);
    assert_eq!(app.event_to_coordinate(ev(0, 0, -3, 500_000)), ProcessedEvent::NoOp);
}

#[test]
fn frame_sync_resets_counters() {
    let c = two_by_two_config();
    let mut app = app_for(&c);
    app.event_to_coordinate(ev(0, 0, 2, 0));
    app.event_to_coordinate(ev(0, 0, 1, 100));
    assert_eq!(app.line_count(), 1);
    assert_eq!(app.lines(), &vec![0]);
    assert_eq!(app.event_to_coordinate(ev(0, 0, 3, 900_000)), ProcessedEvent::FrameNewFrame);
    assert_eq!(app.line_count(), 0);
    assert!(app.lines().is_empty());
    assert_eq!(app.snake.state.frame_origin, 900_000);
}

#[test]
fn second_spectral_channel_and_signals() {
    let c = two_by_two_config();
    let mut app = app_for(&c);
    match app.event_to_coordinate(ev(0, 0, 5, 600_000)) {
        ProcessedEvent::Displayed(p, ch) => {
            assert_eq!(ch, 1);
            assert_eq!(p, ImageCoor::new(1, 0, 0));
        }
        other => panic!("unexpected {:?}", other),
    }
    assert_eq!(app.event_to_coordinate(ev(0, 0, 4, 42)), ProcessedEvent::NoOp);
    assert_eq!(app.snake.state.tag_origin, Some(42));
    assert_eq!(app.event_to_coordinate(ev(0, 0, 6, 43)), ProcessedEvent::NoOp);
    assert_eq!(app.snake.state.last_laser, Some(43));
}

#[test]
fn same_state_same_outcome() {
    let c = two_by_two_config();
    let events = vec![
        ev(0, 0, 2, 0),
        ev(0, 0, 1, 300_000),
        ev(0, 0, 2, 1_000_000),
        ev(0, 0, 1, 1_700_000),
        ev(0, 0, 2, 2_000_000),
        ev(0, 0, 1, 9_000_000),
    ];
    let mut a = app_for(&c);
    let mut b = app_for(&c);
    for e in events {
        assert_eq!(a.event_to_coordinate(e), b.event_to_coordinate(e));
        assert_eq!(a.line_count(), b.line_count());
    }
}

#[test]
fn frame_boundary_keeps_every_event() {
    let c = two_by_two_config();
    let mut app = app_for(&c);
    app.advance_till_first_frame_line(Some(vec![ev(0, 0, 2, 0)]));
    let events = vec![
        ev(0, 0, 1, 100_000),
        ev(0, 0, 2, 1_000_000),
        ev(0, 0, 1, 1_100_000),
        ev(0, 0, 2, 2_000_000),
        ev(0, 0, 1, 2_100_000),
        ev(0, 0, 2, 3_000_000),
    ];
    let left = app.drain_existing_data(&events).unwrap();
    assert_eq!(left, events[4..].to_vec());
    assert_eq!(app.populate_single_frame(Some(left.clone())), None);
    assert_eq!(app.line_count(), 1);
    let mut all = events[..4].to_vec();
    all.extend(left);
    assert_eq!(all, events);
}

#[test]
fn drawn_photons_fill_buffers() {
    let c = two_by_two_config();
    let mut app = app_for(&c);
    app.advance_till_first_frame_line(Some(vec![ev(0, 0, 2, 0)]));
    let events = vec![ev(0, 0, 1, 100_000), ev(0, 0, 1, 200_000), ev(0, 0, 5, 700_000)];
    assert_eq!(app.drain_existing_data(&events), None);
    let ch1 = app.frame_buffers.channel_entries(0);
    assert_eq!(ch1, vec![((0, 0, 0), (600_000, 600_000, 600_000))]);
    let ch2 = app.frame_buffers.channel_entries(1);
    assert_eq!(ch2, vec![((1, 0, 0), (300_000, 300_000, 300_000))]);
    let mut merged = app.frame_buffers.channel_entries(4);
    merged.sort();
    assert_eq!(
        merged,
        vec![((0, 0, 0), (600_000, 600_000, 600_000)), ((1, 0, 0), (300_000, 300_000, 300_000))]
    );
}

#[test]
fn act_on_single_event_reports_frame_ends() {
    let c = two_by_two_config();
    let mut app = app_for(&c);
    assert_eq!(app.act_on_single_event(ev(0, 0, 1, 100)), None);
    assert_eq!(app.act_on_single_event(ev(0, 0, 3, 200)), Some(ProcessedEvent::FrameNewFrame));
    assert_eq!(app.act_on_single_event(ev(0, 0, 1, 90_000_000)), Some(ProcessedEvent::PhotonNewFrame));
}

#[test]
fn color_saturates_after_repeated_hits() {
    let mut fb = FrameBuffers::new(300_000);
    let p = ImageCoor::new(3, 1, 0);
    for k in 1..=5u32 {
        fb.add_to_render_queue(p, 2);
        let expected = std::cmp::min(COLOR_FULL, k * 300_000);
        assert_eq!(fb.channel_entries(2), vec![((3, 1, 0), (expected, expected, expected))]);
        assert_eq!(fb.channel_entries(4), vec![((3, 1, 0), (expected, expected, expected))]);
    }
    assert!(fb.channel_entries(0).is_empty());
}

#[test]
fn snapshot_equals_buffers() {
    let mut fb = FrameBuffers::new(1_000);
    fb.add_to_render_queue(ImageCoor::new(0, 1, 0), 0);
    fb.add_to_render_queue(ImageCoor::new(2, 1, 0), 3);
    let snap = fb.clone_snapshot();
    for c in 0..=4 {
        let mut a = fb.channel_entries(c);
        let mut b = snap.channel_entries(c);
        a.sort();
        b.sort();
        assert_eq!(a, b);
    }
    fb.add_to_render_queue(ImageCoor::new(5, 5, 0), 0);
    assert_eq!(snap.channel_entries(0).len(), 1);
}

#[test]
fn rendering_drains_and_clears() {
    let mut fb = FrameBuffers::new(1_000);
    fb.add_to_render_queue(ImageCoor::new(0, 1, 0), 0);
    fb.add_to_render_queue(ImageCoor::new(2, 1, 0), 1);
    let mut drained = fb.drain_merged_channel();
    drained.sort();
    assert_eq!(drained, vec![((0, 1, 0), (1_000, 1_000, 1_000)), ((2, 1, 0), (1_000, 1_000, 1_000))]);
    assert!(fb.channel_entries(4).is_empty());
    assert_eq!(fb.channel_entries(1).len(), 1);
    fb.clear_non_rendered_channels();
    for c in 0..=4 {
        assert!(fb.channel_entries(c).is_empty());
    }
}

#[test]
fn render_cadence() {
    assert!(render_due(3, 3));
    assert!(!render_due(4, 3));
    assert!(render_due(7, 1));
    assert!(render_due(0, 5));
}

#[test]
fn channel_names_index_buffers() {
    assert_eq!(ChannelNames::Channel1.buffer_index(), 0);
    assert_eq!(ChannelNames::Channel4.buffer_index(), 3);
    assert_eq!(ChannelNames::ChannelMerge.buffer_index(), 4);
}

#[test]
fn event_stream_round_trip() {
    let s = EventStream::new(vec![0, 1, 0], vec![0, 7, 0], vec![1, 2, 3], vec![10, 20, 30]);
    assert_eq!(s.num_rows(), 3);
    assert_eq!(Event::from_stream_idx(&s, 1), Some(ev(1, 7, 2, 20)));
    assert_eq!(Event::from_stream_idx(&s, 3), None);
    assert_eq!(s.to_events(), vec![ev(0, 0, 1, 10), ev(1, 7, 2, 20), ev(0, 0, 3, 30)]);
    let mut it = s.iter();
    assert_eq!(it.next(), Some(ev(0, 0, 1, 10)));
    let mut owned = s.clone().into_iter();
    assert_eq!(owned.next(), Some(ev(0, 0, 1, 10)));
    assert_eq!(owned.next(), Some(ev(1, 7, 2, 20)));
    assert_eq!(it.next(), Some(ev(1, 7, 2, 20)));
    assert_eq!(owned.next(), Some(ev(0, 0, 3, 30)));
    assert_eq!(owned.next(), None);
    assert_eq!(EventStream::empty().num_rows(), 0);
    let f = EventStream::from_stream(vec![0], vec![0], vec![9], vec![-4]);
    assert_eq!(f.to_events(), vec![ev(0, 0, 9, -4)]);
}

#[test]
fn fresh_state_dispatches_leftover_and_recovers() {
    let c = two_by_two_config();
    let mut app = app_for(&c);
    let carry = vec![
        ev(0, 0, 2, 0),
        ev(0, 0, 1, 10_000_000),
        ev(0, 0, 1, 10_200_000),
        ev(0, 0, 2, 10_500_000),
        ev(0, 0, 1, 10_700_000),
    ];
    let left = app.populate_single_frame(Some(carry));
    assert_eq!(left, Some(vec![ev(0, 0, 1, 10_700_000)]));
    assert_eq!(app.line_count(), 1);
    assert!(app.lines().is_empty());
    assert_eq!(app.snake.state.frame_origin, 10_500_000);
    for ch in 0..=4 {
        assert!(app.frame_buffers.channel_entries(ch).is_empty());
    }
}

#[test]
fn fresh_state_ends_frame_on_line_in_leftover() {
    let c = two_by_two_config();
    let mut app = app_for(&c);
    let carry = vec![
        ev(0, 0, 2, 0),
        ev(0, 0, 2, 1_000_000),
        ev(0, 0, 2, 2_000_000),
        ev(0, 0, 1, 2_500_000),
    ];
    let left = app.populate_single_frame(Some(carry));
    assert_eq!(left, Some(vec![ev(0, 0, 1, 2_500_000)]));
    assert_eq!(app.line_count(), 0);
    assert_eq!(app.snake.state.frame_origin, 2_000_000);
}

#[test]
fn batches_split_anywhere_give_same_result() {
    let c = two_by_two_config();
    let events = vec![
        ev(0, 0, 2, 0),
        ev(0, 0, 1, 100_000),
        ev(0, 0, 2, 1_000_000),
        ev(0, 0, 1, 1_600_000),
        ev(0, 0, 1, 9_000_000),
        ev(0, 0, 1, 9_100_000),
        ev(0, 0, 3, 9_500_000),
        ev(0, 0, 1, 9_600_000),
    ];
    let mut whole = app_for(&c);
    let expected = whole.populate_single_frame(Some(events.clone()));
    assert_eq!(expected, Some(vec![ev(0, 0, 1, 9_600_000)]));
    for split in 0..=events.len() {
        let mut app = app_for(&c);
        let first = app.populate_single_frame(Some(events[..split].to_vec()));
        let result = match first {
            Some(mut rest) => {
                rest.extend_from_slice(&events[split..]);
                Some(rest)
            }
            None => app.populate_single_frame(Some(events[split..].to_vec())),
        };
        assert_eq!(result, expected, "split at {}", split);
        assert_eq!(app.snake.state.frame_origin, whole.snake.state.frame_origin);
        assert_eq!(app.line_count(), whole.line_count());
    }
}

#[test]
fn repeated_photons_saturate_through_dispatch() {
    let c = two_by_two_config();
    let mut app = app_for(&c);
    for k in 1..=5u32 {
        assert_eq!(app.act_on_single_event(ev(0, 0, 1, 100_000 + k as i64)), None);
        let m = std::cmp::min(COLOR_FULL, k * 300_000);
        assert_eq!(app.frame_buffers.channel_entries(0), vec![((0, 0, 0), (m, m, m))]);
        assert_eq!(app.frame_buffers.channel_entries(4), vec![((0, 0, 0), (m, m, m))]);
    }
}

#[test]
fn partial_fill_rows_with_shift() {
    let mut c = two_by_two_config();
    c.fill_fraction = 5_000;
    c.line_shift = 50_000;
    c.frame_dead_time = 100_000;
    let mut app = app_for(&c);
    // Row 1 field of view: offsets (1_250_000, 1_750_000], shifted by 50 us.
    match app.event_to_coordinate(ev(0, 0, 1, 1_350_000)) {
        ProcessedEvent::Displayed(p, 0) => assert_eq!(p, ImageCoor::new(0, 1, 0)),
        other => panic!("unexpected {:?}", other),
    }
    match app.event_to_coordinate(ev(0, 0, 1, 1_700_000)) {
        ProcessedEvent::Displayed(p, 0) => assert_eq!(p, ImageCoor::new(1, 1, 0)),
        other => panic!("unexpected {:?}", other),
    }
    assert_eq!(app.event_to_coordinate(ev(0, 0, 1, 1_250_000)), ProcessedEvent::NoOp);
}
