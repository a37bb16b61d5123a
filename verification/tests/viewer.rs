use brickmesh::brick::{Brick, BrickColor, Color, Size};
use brickmesh::mesh::light_color;
use brickmesh::state::{chat_command, BVHView, ChatCommand, GameState, InputState};

#[test]
fn state_starts_listening_with_nothing_drawn() {
    let state = GameState::default();
    assert_eq!(state.input, InputState::Listen);
    assert_eq!(state.bvh_view, BVHView::Off);
    assert!(!state.light_debug);
    assert!(state.input_listening());
    assert_eq!(InputState::default(), InputState::Listen);
    assert_eq!(BVHView::default(), BVHView::Off);
}

#[test]
fn typing_is_not_listening() {
    let state = GameState { input: InputState::Typing, ..GameState::default() };
    assert!(!state.input_listening());
}

#[test]
fn lines_of_the_chat() {
    assert_eq!(chat_command("/clear"), ChatCommand::ClearBricks);
    assert_eq!(chat_command("/clearbricks"), ChatCommand::ClearBricks);
    assert_eq!(chat_command("/clearallbricks"), ChatCommand::ClearBricks);
    assert_eq!(chat_command("/water"), ChatCommand::Water);
    assert_eq!(chat_command("/bvh"), ChatCommand::Bvh);
    assert_eq!(chat_command("/shadows"), ChatCommand::Shadows);
    assert_eq!(chat_command("/lights"), ChatCommand::Lights);
    assert_eq!(chat_command("/debuglights"), ChatCommand::LightDebug);
    assert_eq!(chat_command("/lightdebug"), ChatCommand::LightDebug);
    assert_eq!(chat_command(""), ChatCommand::Unknown);
    assert_eq!(chat_command("/BVH"), ChatCommand::Unknown);
    assert_eq!(chat_command("/bvh "), ChatCommand::Unknown);
    assert_eq!(chat_command("bvh"), ChatCommand::Unknown);
}

#[test]
fn a_command_ends_the_typing() {
    let typing = GameState { input: InputState::Typing, bvh_view: BVHView::On(3), light_debug: true };
    for command in [
        ChatCommand::ClearBricks,
        ChatCommand::Water,
        ChatCommand::Shadows,
        ChatCommand::Lights,
        ChatCommand::Unknown,
    ] {
        assert_eq!(
            typing.after_command(command),
            GameState { input: InputState::Listen, bvh_view: BVHView::On(3), light_debug: true }
        );
    }
    assert_eq!(
        typing.after_command(ChatCommand::Bvh),
        GameState { input: InputState::Listen, bvh_view: BVHView::Off, light_debug: true }
    );
    assert_eq!(
        typing.after_command(ChatCommand::LightDebug),
        GameState { input: InputState::Listen, bvh_view: BVHView::On(3), light_debug: false }
    );
    assert_eq!(
        GameState::default().after_command(ChatCommand::Bvh).bvh_view,
        BVHView::On(0)
    );
}

#[test]
fn depth_of_the_boxes_that_are_drawn() {
    assert_eq!(BVHView::Off.toggled(), BVHView::On(0));
    assert_eq!(BVHView::On(7).toggled(), BVHView::Off);
    assert_eq!(BVHView::On(0).deeper(), BVHView::On(1));
    assert_eq!(BVHView::On(254).deeper(), BVHView::On(255));
    assert_eq!(BVHView::On(255).shallower(), BVHView::On(254));
    assert_eq!(BVHView::On(1).shallower(), BVHView::On(0));
    assert_eq!(BVHView::Off.deeper(), BVHView::Off);
    assert_eq!(BVHView::Off.shallower(), BVHView::Off);
}

#[test]
fn colour_of_a_light() {
    let palette = vec![Color { r: 10, g: 20, b: 30, a: 40 }];
    let brick = Brick {
        asset_name_index: 0,
        size: Size::Empty,
        position: (0, 0, 0),
        direction: 4,
        rotation: 0,
        visibility: true,
        material_index: 0,
        color: BrickColor::Index(0),
        owner_index: 0,
    };
    let own = Color { r: 1, g: 2, b: 3, a: 4 };
    assert_eq!(light_color(true, &brick, &palette, own), [10, 20, 30, 0]);
    assert_eq!(light_color(false, &brick, &palette, own), [1, 2, 3, 0]);
    // a light with a colour of its own does not look at the palette
    let missing = Brick { color: BrickColor::Index(9), ..brick };
    assert_eq!(light_color(false, &missing, &palette, own), [1, 2, 3, 0]);
}
