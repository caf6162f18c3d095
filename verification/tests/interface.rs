//! The interface-facing data: themes, frames, the notice board and the
//! screen stack.

use factory_core::assets::Frame;
use factory_core::items::Item;
use factory_core::notice_board::{NoticeBoard, NoticeEntry};
use factory_core::registry::{register_blocks, ItemKind, Registry};
use factory_core::scheduler::{Task, TaskQueue};
use factory_core::screens::{
    close_screen, move_screen, reset_all, ContainerInventoryScreen, CurrentScreen, DialogBox,
    ScreenDimensions, ScreenKind,
};
use factory_core::ui::{dark, jungle, light};
use factory_core::world::{ChunkBlockMetadata, Direction, Vec2i};

#[test]
fn themes_are_fixed_style_tables() {
    let j = jungle();
    assert_eq!(j.len(), 15);
    assert_eq!(j[0], (0, 0, 0x60827dff));
    assert_eq!(j[14], (0, 20, 0x00000012));
    let d = dark();
    assert_eq!(d.len(), 20);
    assert_eq!(d[14], (1, 5, 0xf7f7f7ff));
    assert!(light().is_empty());
}

#[test]
fn frames_number_from_zero() {
    let frames = Frame::multiple(50, 5);
    assert_eq!(frames.len(), 5);
    assert_eq!(frames[0], Frame::new(0, 50));
    assert_eq!(frames[4], Frame::new(4, 50));
}

#[test]
fn notice_board_drops_expired_entries_in_order() {
    let mut reg = Registry::new();
    assert!(register_blocks(&mut reg));
    let id = reg.item_id_of_kind(ItemKind::Resource).unwrap();
    let entry = |change: i32, expires_at_ms: u64| NoticeEntry {
        item: Item::new(id, ItemKind::Resource, 1),
        change,
        expires_at_ms,
    };
    let mut board = NoticeBoard::new();
    board.add_entry(entry(1, 100));
    board.add_entry(entry(2, 300));
    board.add_entry(entry(3, 200));
    board.add_entry(entry(4, 400));
    board.update_entries(200);
    assert_eq!(board.len(), 2);
    assert_eq!(board.get(0).change, 2);
    assert_eq!(board.get(1).change, 4);
    board.reset();
    assert_eq!(board.len(), 0);
}

#[test]
fn screen_stack_opens_moves_and_centers() {
    let mut cur = CurrentScreen::new();
    assert!(!cur.is_screen_open());
    assert_eq!(cur.get_dimensions(), ScreenDimensions { width: 0, height: 0 });
    cur.open(
        ScreenKind::ContainerInventory(ContainerInventoryScreen::new(
            3,
            4,
            45,
            factory_core::identifier::GlobalString(0),
        )),
        0,
        0,
    );
    assert!(cur.is_screen_open());
    // 45 slots in nine columns: five rows of fifty pixels, plus padding.
    let d = cur.get_dimensions();
    assert_eq!(d.width, 450 + 10);
    assert_eq!(d.height, 250 + 35);
    cur.move_to_center(&ScreenDimensions { width: 1000, height: 600 });
    assert_eq!(cur.x, (1000 - 460) / 2);
    assert_eq!(cur.y, (600 - 285) / 2);
    move_screen(&mut cur, 7, 9);
    assert_eq!((cur.x, cur.y), (7, 9));
    close_screen(&mut cur);
    assert!(!cur.is_screen_open());
}

#[test]
fn dialog_boxes_grow_with_their_text() {
    let open_dialog = DialogBox::new(None, String::from("hello"));
    assert!(open_dialog.closeable);
    let modal = DialogBox::new_uncloseable(None, String::from("hello"));
    assert!(!modal.closeable);
    let mut cur = CurrentScreen::new();
    cur.open(ScreenKind::Dialog(DialogBox::new(None, String::from("hello"))), 0, 0);
    let d = cur.get_dimensions();
    assert_eq!(d.width, 40 + 6 * 5 + 10);
    assert_eq!(d.height, 20 + 44 + 35);
}

#[test]
fn reset_all_clears_screen_tasks_and_notices() {
    let mut cur = CurrentScreen::new();
    cur.open(ScreenKind::Main(factory_core::screens::MainScreen), 1, 2);
    let mut queue = TaskQueue::new();
    queue.schedule_task(Task::Noop);
    queue.schedule_task(Task::WorldUpdateBlock(
        factory_core::scheduler::BlockUpdateFn::ConveyorUpdate,
        ChunkBlockMetadata::new(Direction::North, Vec2i::new(0, 0)),
    ));
    let mut board = NoticeBoard::new();
    assert_eq!(queue.len(), 2);
    reset_all(&mut cur, &mut queue, &mut board);
    assert!(!cur.is_screen_open());
    assert_eq!(queue.len(), 0);
    assert_eq!(board.len(), 0);
}
