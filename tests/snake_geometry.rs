use librpysight::configuration::{AppConfig, Bidirectionality, InputChannel};
use librpysight::point_cloud_renderer::ProcessedEvent;
use librpysight::snakes::{ImageCoor, Snake, VoxelDelta};

fn config(rows: u32, columns: u32, bidir: Bidirectionality, fill: u32) -> AppConfig {
    AppConfig {
        rows,
        columns,
        planes: 0,
        scan_period: 1_000_000,
        laser_period: 12_500,
        tag_period: 0,
        bidir,
        fill_fraction: fill,
        frame_dead_time: 0,
        line_shift: 0,
        pmt1_ch: InputChannel::new(1),
        pmt2_ch: InputChannel::new(-1),
        pmt3_ch: InputChannel::new(-1),
        pmt4_ch: InputChannel::new(-1),
        laser_ch: InputChannel::new(-1),
        frame_ch: InputChannel::new(3),
        line_ch: InputChannel::new(2),
        taglens_ch: InputChannel::new(4),
        rolling_avg: 1,
        increment_color_by: 100_000,
        filename: String::from("frames.arrow"),
    }
}

fn snake_of(c: &AppConfig) -> Snake {
    assert_eq!(c.validate(), Ok(()));
    let g = Snake::geometry_from_config(c);
    let p = Snake::linear_row_profile(g.active, c.columns);
    Snake::from_acq_params(c, &p, 0)
}

fn displayed(r: ProcessedEvent) -> ImageCoor {
    match r {
        ProcessedEvent::Displayed(p, _) => p,
        other => panic!("expected a drawn photon, got {:?}", other),
    }
}

#[test]
fn linear_profile_values() {
    assert_eq!(Snake::linear_row_profile(1_000_000, 2), vec![500_000, 1_000_000]);
    assert_eq!(Snake::linear_row_profile(10, 3), vec![3, 6, 10]);
    assert_eq!(Snake::linear_row_profile(0, 2), vec![0, 0]);
}

#[test]
fn profile_checker() {
    assert!(Snake::is_valid_profile(&vec![3, 6, 10], 3, 10));
    assert!(!Snake::is_valid_profile(&vec![3, 6, 9], 3, 10));
    assert!(!Snake::is_valid_profile(&vec![6, 3, 10], 3, 10));
    assert!(!Snake::is_valid_profile(&vec![-1, 6, 10], 3, 10));
    assert!(!Snake::is_valid_profile(&vec![3, 10], 3, 10));
    assert!(!Snake::is_valid_profile(&vec![], 0, 10));
}

#[test]
fn geometry_of_partial_fill() {
    let c = config(4, 8, Bidirectionality::Bidir, 7_130);
    let g = Snake::geometry_from_config(&c);
    assert_eq!(g.row_period, 500_000);
    assert_eq!(g.active, 356_500);
    assert_eq!(g.lead, 71_750);
    assert_eq!(g.frame_span, 2_000_000);
}

#[test]
fn table_covers_frame_in_order() {
    let s = snake_of(&config(3, 4, Bidirectionality::Unidir, 5_000));
    let ends: Vec<i64> = s.bins.iter().map(|b| b.t_end).collect();
    assert!(ends.windows(2).all(|w| w[0] <= w[1]));
    assert_eq!(*ends.last().unwrap(), 3_000_000);
    // Each row: a lead margin, four columns, a trailing margin.
    assert_eq!(s.bins.len(), 3 * 6);
    assert!(!s.bins[0].active);
    assert_eq!(s.bins[0].t_end, 250_000);
    assert_eq!(s.bins[1].t_end, 375_000);
}

#[test]
fn photons_before_frame_ignored() {
    let mut s = snake_of(&config(2, 2, Bidirectionality::Unidir, 10_000));
    s.update_snake_for_next_frame(1_000);
    assert_eq!(s.time_to_coord_linear(999, 0), ProcessedEvent::NoOp);
    assert_eq!(s.state.frame_origin, 1_000);
}

#[test]
fn every_time_in_frame_is_drawn() {
    let c = config(4, 5, Bidirectionality::Unidir, 10_000);
    let s = snake_of(&c);
    let mut t = 0;
    while t < 4_000_000 {
        let p = displayed(s.time_to_coord_linear(t, 2));
        assert!(p.x < 5 && p.y < 4 && p.z == 0);
        assert_eq!(p.y as i64, if t == 0 { 0 } else { (t - 1) / 1_000_000 });
        t += 37_003;
    }
    assert_eq!(s.time_to_coord_linear(4_000_000, 2), ProcessedEvent::PhotonNewFrame);
}

#[test]
fn margins_outside_fill_fraction_are_not_drawn() {
    let s = snake_of(&config(2, 2, Bidirectionality::Unidir, 5_000));
    assert_eq!(s.time_to_coord_linear(100_000, 0), ProcessedEvent::NoOp);
    assert_eq!(s.time_to_coord_linear(900_000, 0), ProcessedEvent::NoOp);
    assert_eq!(displayed(s.time_to_coord_linear(300_000, 0)), ImageCoor::new(0, 0, 0));
    assert_eq!(displayed(s.time_to_coord_linear(700_000, 0)), ImageCoor::new(1, 0, 0));
}

#[test]
fn bidirectional_rows_alternate_direction() {
    let s = snake_of(&config(2, 4, Bidirectionality::Bidir, 10_000));
    // Row period is 500 us; row 0 sweeps left to right, row 1 right to left.
    let row0: Vec<u32> = [50_000, 150_000, 300_000, 450_000]
        .iter()
        .map(|t| displayed(s.time_to_coord_linear(*t, 0)).x)
        .collect();
    let row1: Vec<u32> = [550_000, 650_000, 800_000, 950_000]
        .iter()
        .map(|t| displayed(s.time_to_coord_linear(*t, 0)).x)
        .collect();
    assert_eq!(row0, vec![0, 1, 2, 3]);
    assert_eq!(row1, vec![3, 2, 1, 0]);
}

#[test]
fn bin_boundary_belongs_to_earlier_bin() {
    let s = snake_of(&config(2, 2, Bidirectionality::Unidir, 10_000));
    assert_eq!(displayed(s.time_to_coord_linear(500_000, 0)).x, 0);
    assert_eq!(displayed(s.time_to_coord_linear(500_001, 0)).x, 1);
}

#[test]
fn line_shift_delays_rows() {
    let mut c = config(2, 2, Bidirectionality::Unidir, 10_000);
    c.line_shift = 100_000;
    c.frame_dead_time = 200_000;
    let s = snake_of(&c);
    assert_eq!(s.time_to_coord_linear(50_000, 0), ProcessedEvent::NoOp);
    assert_eq!(displayed(s.time_to_coord_linear(600_000, 0)).x, 0);
    assert_eq!(displayed(s.time_to_coord_linear(601_000, 0)).x, 1);
    assert_eq!(s.time_to_coord_linear(2_150_000, 0), ProcessedEvent::NoOp);
    assert_eq!(s.time_to_coord_linear(2_200_000, 0), ProcessedEvent::PhotonNewFrame);
}

#[test]
fn tag_lens_phase_selects_plane() {
    let mut c = config(2, 2, Bidirectionality::Unidir, 10_000);
    c.planes = 10;
    c.tag_period = 1_000;
    let mut s = snake_of(&c);
    assert_eq!(displayed(s.time_to_coord_linear(10_000, 0)).z, 0);
    assert_eq!(s.new_taglens_period(10_000), ProcessedEvent::NoOp);
    assert_eq!(displayed(s.time_to_coord_linear(10_250, 0)).z, 2);
    assert_eq!(displayed(s.time_to_coord_linear(10_999, 0)).z, 9);
    assert_eq!(displayed(s.time_to_coord_linear(11_500, 0)).z, 5);
    s.update_snake_for_next_frame(20_000);
    assert_eq!(s.state.tag_origin, None);
    assert_eq!(displayed(s.time_to_coord_linear(20_500, 0)).z, 0);
}

#[test]
fn two_dimensional_scan_is_flat() {
    let mut c = config(2, 2, Bidirectionality::Unidir, 10_000);
    c.planes = 1;
    c.tag_period = 1_000;
    let mut s = snake_of(&c);
    s.new_taglens_period(0);
    assert_eq!(displayed(s.time_to_coord_linear(300, 0)).z, 0);
    assert_eq!(displayed(s.time_to_coord_linear(1_999_999, 0)).z, 0);
}

#[test]
fn laser_events_are_recorded() {
    let mut s = snake_of(&config(2, 2, Bidirectionality::Unidir, 10_000));
    assert_eq!(s.new_laser_event(12_345), ProcessedEvent::NoOp);
    assert_eq!(s.state.last_laser, Some(12_345));
}

#[test]
fn voxel_delta_counts() {
    let s = snake_of(&config(3, 5, Bidirectionality::Unidir, 10_000));
    assert_eq!(s.get_voxel_delta_im(), VoxelDelta { columns: 5, rows: 3, planes: 1 });
    let mut c = config(3, 5, Bidirectionality::Unidir, 10_000);
    c.planes = 7;
    c.tag_period = 100;
    assert_eq!(snake_of(&c).get_voxel_delta_im().planes, 7);
}
