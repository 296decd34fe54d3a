use adequate_booru_viewer::model::PostId;
use adequate_booru_viewer::worker::{next_media_command, BladeEpoch, MediaCommand};

#[test]
fn media_queue_culls_stale_thumbnail_epochs() {
    let stale = BladeEpoch::root().advance();
    let live = stale.advance();
    let mut pending = vec![
        MediaCommand::Blade { epoch: stale, id: PostId(1), bucket: 1, url: None },
        MediaCommand::Cull { epoch: live },
        MediaCommand::Blade { epoch: live, id: PostId(2), bucket: 1, url: None },
    ];
    let mut epoch = BladeEpoch::root();
    let command = next_media_command(&mut pending, &mut epoch).expect("media command");
    let MediaCommand::Blade { id, .. } = command else {
        panic!("expected live blade after cull");
    };
    assert_eq!(id, PostId(2));
    assert_eq!(epoch, live);
    assert!(pending.is_empty());
}

#[test]
fn media_queue_prioritizes_full_blades() {
    let epoch_one = BladeEpoch::root().advance();
    let mut pending = vec![
        MediaCommand::Blade { epoch: epoch_one, id: PostId(1), bucket: 1, url: None },
        MediaCommand::FullBlade { id: PostId(9), url: None },
    ];
    let mut epoch = BladeEpoch::root();
    let command = next_media_command(&mut pending, &mut epoch).expect("media command");
    let MediaCommand::FullBlade { id, .. } = command else {
        panic!("expected full blade priority");
    };
    assert_eq!(id, PostId(9));
    assert_eq!(pending.len(), 1);
}

#[test]
fn saves_come_before_thumbnails() {
    let mut pending = vec![
        MediaCommand::Blade { epoch: BladeEpoch::root(), id: PostId(1), bucket: 1, url: None },
        MediaCommand::Save { id: PostId(3), url: None, path: "out.png".to_owned() },
    ];
    let mut epoch = BladeEpoch::root();
    let command = next_media_command(&mut pending, &mut epoch).expect("media command");
    assert!(matches!(command, MediaCommand::Save { .. }));
    let command = next_media_command(&mut pending, &mut epoch).expect("media command");
    assert!(matches!(command, MediaCommand::Blade { .. }));
    assert!(next_media_command(&mut pending, &mut epoch).is_none());
}
