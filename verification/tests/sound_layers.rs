use ddnet_kit::sound_layers::{sound_removal_actions, LayerSound, SoundRefChange, SoundRemovalAction};

#[test]
fn removal_reindexes_background_then_foreground() {
    let background = vec![
        vec![LayerSound::Sound(Some(0)), LayerSound::Other, LayerSound::Sound(Some(2))],
        vec![LayerSound::Sound(Some(1)), LayerSound::Sound(None)],
    ];
    let foreground = vec![vec![LayerSound::Sound(Some(3))]];
    let actions = sound_removal_actions(&background, &foreground, 4, 1);
    assert_eq!(
        actions,
        vec![
            SoundRemovalAction::ChangeLayer(SoundRefChange {
                is_background: true,
                group_index: 0,
                layer_index: 2,
                old_sound: Some(2),
                new_sound: Some(1),
            }),
            SoundRemovalAction::ChangeLayer(SoundRefChange {
                is_background: true,
                group_index: 1,
                layer_index: 0,
                old_sound: Some(1),
                new_sound: None,
            }),
            SoundRemovalAction::ChangeLayer(SoundRefChange {
                is_background: false,
                group_index: 0,
                layer_index: 0,
                old_sound: Some(3),
                new_sound: Some(2),
            }),
            SoundRemovalAction::RemoveSound(1),
        ]
    );
}

#[test]
fn removing_last_sound_touches_only_its_layers() {
    let background = vec![vec![LayerSound::Sound(Some(0)), LayerSound::Sound(Some(1))]];
    let actions = sound_removal_actions(&background, &Vec::new(), 2, 1);
    assert_eq!(
        actions,
        vec![
            SoundRemovalAction::ChangeLayer(SoundRefChange {
                is_background: true,
                group_index: 0,
                layer_index: 1,
                old_sound: Some(1),
                new_sound: None,
            }),
            SoundRemovalAction::RemoveSound(1),
        ]
    );
}

#[test]
fn no_sound_layers_only_removes() {
    let actions = sound_removal_actions(&vec![vec![LayerSound::Other]], &vec![], 1, 0);
    assert_eq!(actions, vec![SoundRemovalAction::RemoveSound(0)]);
}

#[test]
fn reindexed_layers_keep_their_sound() {
    let sounds = vec!["a", "b", "c", "d"];
    let layers = vec![vec![
        LayerSound::Sound(Some(0)),
        LayerSound::Sound(Some(2)),
        LayerSound::Sound(Some(3)),
    ]];
    let removed = 1;
    let actions = sound_removal_actions(&layers, &vec![], sounds.len(), removed);
    let mut remaining = sounds.clone();
    remaining.remove(removed);
    for a in actions {
        if let SoundRemovalAction::ChangeLayer(c) = a {
            let old = c.old_sound.unwrap();
            let new = c.new_sound.unwrap();
            assert_eq!(remaining[new], sounds[old]);
        }
    }
}
