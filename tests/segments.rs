use amongus_timeline::{
    detect_games, find_games, role_for, trim_blank_tail, FeatureSet, GameSegment, Image, Role,
    FRAME_BYTES,
};

fn idle() -> FeatureSet {
    FeatureSet {
        council: false,
        bright_map: false,
        impostor_objective: false,
        open_map: false,
        game_settings: false,
        victory_screen: false,
        defeat_screen: false,
        alert: false,
        progress_bar: false,
    }
}

fn playing() -> FeatureSet {
    FeatureSet { progress_bar: true, ..idle() }
}

fn objective() -> FeatureSet {
    FeatureSet { impostor_objective: true, ..playing() }
}

fn victory() -> FeatureSet {
    FeatureSet { victory_screen: true, ..idle() }
}

fn map_open() -> FeatureSet {
    FeatureSet { bright_map: true, open_map: true, ..idle() }
}

/// Frames 0 to 2 idle, a round from frame 3 whose first frame is not counted
/// (the map is open), `objectives` frames with the objective among the next
/// `rest`, then a victory screen.
fn round(objectives: usize, rest: usize) -> Vec<FeatureSet> {
    let mut frames = vec![idle(), idle(), idle(), map_open()];
    for k in 0..rest {
        frames.push(if k < objectives { objective() } else { playing() });
    }
    frames.push(victory());
    frames
}

#[test]
fn is_game_is_the_or_of_four_flags() {
    for bits in 0..16u32 {
        for others in 0..32u32 {
            let f = FeatureSet {
                bright_map: bits & 1 != 0,
                council: bits & 2 != 0,
                alert: bits & 4 != 0,
                progress_bar: bits & 8 != 0,
                impostor_objective: others & 1 != 0,
                open_map: others & 2 != 0,
                game_settings: others & 4 != 0,
                victory_screen: others & 8 != 0,
                defeat_screen: others & 16 != 0,
            };
            assert_eq!(f.is_game(), bits != 0);
        }
    }
}

#[test]
fn round_with_many_objectives_is_impostor() {
    // objective in 5 of 7 counted frames
    let frames = round(5, 6);
    assert_eq!(frames.len(), 11);
    let (games, n) = detect_games(&frames);
    assert_eq!(n, 11);
    assert_eq!(games, vec![GameSegment { start: 3, end: 10, role: Role::Impostor }]);
}

#[test]
fn round_with_few_objectives_is_crewmate() {
    // objective in 3 of 7 counted frames
    let (games, _) = detect_games(&round(3, 6));
    assert_eq!(games, vec![GameSegment { start: 3, end: 10, role: Role::Crewmate }]);
}

#[test]
fn three_fifths_is_crewmate() {
    // objective in 3 of 5 counted frames
    let (games, _) = detect_games(&round(3, 4));
    assert_eq!(games, vec![GameSegment { start: 3, end: 8, role: Role::Crewmate }]);
    assert_eq!(role_for(3, 5), Role::Crewmate);
    assert_eq!(role_for(4, 5), Role::Impostor);
    assert_eq!(role_for(300, 500), Role::Crewmate);
    assert_eq!(role_for(301, 500), Role::Impostor);
}

#[test]
fn no_counted_frame_is_crewmate() {
    assert_eq!(role_for(0, 0), Role::Crewmate);
    assert_eq!(role_for(7, 0), Role::Crewmate);
}

#[test]
fn open_round_ends_with_the_frames() {
    let frames = vec![idle(), playing(), objective(), objective(), objective()];
    let (games, n) = detect_games(&frames);
    assert_eq!(n, 5);
    // 3 objectives over 1 + 4 counted frames
    assert_eq!(games, vec![GameSegment { start: 1, end: 5, role: Role::Crewmate }]);
}

#[test]
fn end_screen_while_idle_is_ignored() {
    let frames = vec![victory(), idle(), playing(), victory(), victory(), playing()];
    let (games, n) = detect_games(&frames);
    assert_eq!(n, 6);
    assert_eq!(
        games,
        vec![
            GameSegment { start: 2, end: 3, role: Role::Crewmate },
            GameSegment { start: 5, end: 6, role: Role::Crewmate },
        ]
    );
}

#[test]
fn alert_frames_do_not_count() {
    let alert_objective = FeatureSet { alert: true, ..objective() };
    let frames = vec![playing(), alert_objective, alert_objective, alert_objective, victory()];
    let (games, _) = detect_games(&frames);
    // no objective counted, 2 counted frames
    assert_eq!(games, vec![GameSegment { start: 0, end: 4, role: Role::Crewmate }]);
}

#[test]
fn settings_and_defeat_end_a_round() {
    let settings = FeatureSet { game_settings: true, ..idle() };
    let defeat = FeatureSet { defeat_screen: true, ..idle() };
    let frames = vec![objective(), settings, objective(), objective(), defeat];
    let (games, _) = detect_games(&frames);
    // 1 objective over 2 counted frames, then 2 over 3
    assert_eq!(
        games,
        vec![
            GameSegment { start: 0, end: 1, role: Role::Crewmate },
            GameSegment { start: 2, end: 4, role: Role::Impostor },
        ]
    );
}

#[test]
fn no_frames_no_rounds() {
    let (games, n) = detect_games(&Vec::new());
    assert!(games.is_empty());
    assert_eq!(n, 0);
}

fn frame_with_pixel(x: usize, y: usize) -> Image {
    let mut data = vec![0u8; FRAME_BYTES];
    data[(y * 160 + x) * 4] = 1;
    Image::new(data)
}

fn blank() -> Image {
    Image::new(vec![0u8; FRAME_BYTES])
}

#[test]
fn trailing_blank_frames_are_trimmed() {
    let mut images = vec![frame_with_pixel(0, 0), blank(), frame_with_pixel(159, 89)];
    for _ in 0..5 {
        images.push(blank());
    }
    trim_blank_tail(&mut images);
    assert_eq!(images.len(), 3);
}

#[test]
fn all_blank_frames_trim_to_nothing() {
    let mut images = vec![blank(), blank()];
    trim_blank_tail(&mut images);
    assert!(images.is_empty());
}

#[test]
fn find_games_skips_the_blank_tail() {
    let mut red = vec![0u8; FRAME_BYTES];
    for i in 0..160 * 90 {
        red[i * 4] = 200;
        red[i * 4 + 1] = 30;
        red[i * 4 + 2] = 30;
    }
    let mut images = vec![blank(), Image::new(red.clone()), Image::new(red)];
    for _ in 0..5 {
        images.push(blank());
    }
    let (games, n) = find_games(images);
    assert_eq!(n, 3);
    assert_eq!(games, vec![GameSegment { start: 1, end: 3, role: Role::Crewmate }]);
}
