//! Interface styling data and textbox state.
//!
//! A theme is a table of raygui style properties: (control, property, value)
//! triples, value in RGBA order. The core only computes these tables; an
//! interface layer applies them.

use vstd::prelude::*;

verus! {

/// The state of a text box: its text, cursor, scroll offset and focus.
pub struct TextboxState {
    pub active: bool,
    pub text: String,
    pub cursor_location: usize,
    pub offset: usize,
}

impl Default for TextboxState {
    fn default() -> (r: Self)
        ensures
            r.active,
            r.cursor_location == 6,
            r.offset == 0,
            r.text@ == Seq::<char>::empty(),
    {
        TextboxState { active: true, text: String::new(), cursor_location: 6, offset: 0 }
    }
}

/// The jungle theme: deep greens on slate.
pub fn jungle() -> (r: Vec<(u8, u8, u32)>)
    ensures
        r@ == seq![(0u8, 0u8, 0x60827dffu32), (0u8, 1u8, 0x2c3334ffu32), (0u8, 2u8, 0x82a29fffu32), (0u8, 3u8, 0x5f9aa8ffu32), (0u8, 4u8, 0x334e57ffu32), (0u8, 5u8, 0x6aa9b8ffu32), (0u8, 6u8, 0xa9cb8dffu32), (0u8, 7u8, 0x3b6357ffu32), (0u8, 8u8, 0x97af81ffu32), (0u8, 9u8, 0x5b6462ffu32), (0u8, 10u8, 0x2c3334ffu32), (0u8, 11u8, 0x666b69ffu32), (0u8, 18u8, 0x638465ffu32), (0u8, 19u8, 0x2b3a3affu32), (0u8, 20u8, 0x00000012u32)],
{
    let mut v: Vec<(u8, u8, u32)> = Vec::new();

    v.push((0, 0, 0x60827dff));
    v.push((0, 1, 0x2c3334ff));
    v.push((0, 2, 0x82a29fff));
    v.push((0, 3, 0x5f9aa8ff));
    v.push((0, 4, 0x334e57ff));
    v.push((0, 5, 0x6aa9b8ff));
    v.push((0, 6, 0xa9cb8dff));
    v.push((0, 7, 0x3b6357ff));
    v.push((0, 8, 0x97af81ff));
    v.push((0, 9, 0x5b6462ff));
    v.push((0, 10, 0x2c3334ff));
    v.push((0, 11, 0x666b69ff));
    v.push((0, 18, 0x638465ff));
    v.push((0, 19, 0x2b3a3aff));
    v.push((0, 20, 0x00000012));
    proof {
        assert(v@ =~= seq![(0u8, 0u8, 0x60827dffu32), (0u8, 1u8, 0x2c3334ffu32), (0u8, 2u8, 0x82a29fffu32), (0u8, 3u8, 0x5f9aa8ffu32), (0u8, 4u8, 0x334e57ffu32), (0u8, 5u8, 0x6aa9b8ffu32), (0u8, 6u8, 0xa9cb8dffu32), (0u8, 7u8, 0x3b6357ffu32), (0u8, 8u8, 0x97af81ffu32), (0u8, 9u8, 0x5b6462ffu32), (0u8, 10u8, 0x2c3334ffu32), (0u8, 11u8, 0x666b69ffu32), (0u8, 18u8, 0x638465ffu32), (0u8, 19u8, 0x2b3a3affu32), (0u8, 20u8, 0x00000012u32)]);
    }
    v
}

/// The lavenda theme: soft purples and pinks.
pub fn lavenda() -> (r: Vec<(u8, u8, u32)>)
    ensures
        r@ == seq![(0u8, 0u8, 0xab9bd3ffu32), (0u8, 1u8, 0x3e4350ffu32), (0u8, 2u8, 0xdadaf4ffu32), (0u8, 3u8, 0xee84a0ffu32), (0u8, 4u8, 0xf4b7c7ffu32), (0u8, 5u8, 0xb7657bffu32), (0u8, 6u8, 0xd5c8dbffu32), (0u8, 7u8, 0x966ec0ffu32), (0u8, 8u8, 0xd7ccf7ffu32), (0u8, 9u8, 0x8fa2bdffu32), (0u8, 10u8, 0x6b798dffu32), (0u8, 11u8, 0x8292a9ffu32), (0u8, 18u8, 0x84adb7ffu32), (0u8, 19u8, 0x5b5b81ffu32)],
{
    let mut v: Vec<(u8, u8, u32)> = Vec::new();

    v.push((0, 0, 0xab9bd3ff));
    v.push((0, 1, 0x3e4350ff));
    v.push((0, 2, 0xdadaf4ff));
    v.push((0, 3, 0xee84a0ff));
    v.push((0, 4, 0xf4b7c7ff));
    v.push((0, 5, 0xb7657bff));
    v.push((0, 6, 0xd5c8dbff));
    v.push((0, 7, 0x966ec0ff));
    v.push((0, 8, 0xd7ccf7ff));
    v.push((0, 9, 0x8fa2bdff));
    v.push((0, 10, 0x6b798dff));
    v.push((0, 11, 0x8292a9ff));
    v.push((0, 18, 0x84adb7ff));
    v.push((0, 19, 0x5b5b81ff));
    proof {
        assert(v@ =~= seq![(0u8, 0u8, 0xab9bd3ffu32), (0u8, 1u8, 0x3e4350ffu32), (0u8, 2u8, 0xdadaf4ffu32), (0u8, 3u8, 0xee84a0ffu32), (0u8, 4u8, 0xf4b7c7ffu32), (0u8, 5u8, 0xb7657bffu32), (0u8, 6u8, 0xd5c8dbffu32), (0u8, 7u8, 0x966ec0ffu32), (0u8, 8u8, 0xd7ccf7ffu32), (0u8, 9u8, 0x8fa2bdffu32), (0u8, 10u8, 0x6b798dffu32), (0u8, 11u8, 0x8292a9ffu32), (0u8, 18u8, 0x84adb7ffu32), (0u8, 19u8, 0x5b5b81ffu32)]);
    }
    v
}

/// The cyber theme: teal panels with amber accents.
pub fn cyber() -> (r: Vec<(u8, u8, u32)>)
    ensures
        r@ == seq![(0u8, 0u8, 0x2f7486ffu32), (0u8, 1u8, 0x024658ffu32), (0u8, 2u8, 0x51bfd3ffu32), (0u8, 3u8, 0x82cde0ffu32), (0u8, 4u8, 0x3299b4ffu32), (0u8, 5u8, 0xb6e1eaffu32), (0u8, 6u8, 0xeb7630ffu32), (0u8, 7u8, 0xffbc51ffu32), (0u8, 8u8, 0xd86f36ffu32), (0u8, 9u8, 0x134b5affu32), (0u8, 10u8, 0x02313dffu32), (0u8, 11u8, 0x17505fffu32), (0u8, 18u8, 0x81c0d0ffu32), (0u8, 19u8, 0x00222bffu32)],
{
    let mut v: Vec<(u8, u8, u32)> = Vec::new();

    v.push((0, 0, 0x2f7486ff));
    v.push((0, 1, 0x024658ff));
    v.push((0, 2, 0x51bfd3ff));
    v.push((0, 3, 0x82cde0ff));
    v.push((0, 4, 0x3299b4ff));
    v.push((0, 5, 0xb6e1eaff));
    v.push((0, 6, 0xeb7630ff));
    v.push((0, 7, 0xffbc51ff));
    v.push((0, 8, 0xd86f36ff));
    v.push((0, 9, 0x134b5aff));
    v.push((0, 10, 0x02313dff));
    v.push((0, 11, 0x17505fff));
    v.push((0, 18, 0x81c0d0ff));
    v.push((0, 19, 0x00222bff));
    proof {
        assert(v@ =~= seq![(0u8, 0u8, 0x2f7486ffu32), (0u8, 1u8, 0x024658ffu32), (0u8, 2u8, 0x51bfd3ffu32), (0u8, 3u8, 0x82cde0ffu32), (0u8, 4u8, 0x3299b4ffu32), (0u8, 5u8, 0xb6e1eaffu32), (0u8, 6u8, 0xeb7630ffu32), (0u8, 7u8, 0xffbc51ffu32), (0u8, 8u8, 0xd86f36ffu32), (0u8, 9u8, 0x134b5affu32), (0u8, 10u8, 0x02313dffu32), (0u8, 11u8, 0x17505fffu32), (0u8, 18u8, 0x81c0d0ffu32), (0u8, 19u8, 0x00222bffu32)]);
    }
    v
}

/// The candy theme: warm oranges and reds.
pub fn candy() -> (r: Vec<(u8, u8, u32)>)
    ensures
        r@ == seq![(0u8, 0u8, 0xe58b68ffu32), (0u8, 1u8, 0xfeda96ffu32), (0u8, 2u8, 0xe59b5fffu32), (0u8, 3u8, 0xee813fffu32), (0u8, 4u8, 0xfcd85bffu32), (0u8, 5u8, 0xfc6955ffu32), (0u8, 6u8, 0xb34848ffu32), (0u8, 7u8, 0xeb7272ffu32), (0u8, 8u8, 0xbd4a4affu32), (0u8, 9u8, 0x94795dffu32), (0u8, 10u8, 0xc2a37affu32), (0u8, 11u8, 0x9c8369ffu32), (0u8, 18u8, 0xd77575ffu32), (0u8, 19u8, 0xfff5e1ffu32)],
{
    let mut v: Vec<(u8, u8, u32)> = Vec::new();

    v.push((0, 0, 0xe58b68ff));
    v.push((0, 1, 0xfeda96ff));
    v.push((0, 2, 0xe59b5fff));
    v.push((0, 3, 0xee813fff));
    v.push((0, 4, 0xfcd85bff));
    v.push((0, 5, 0xfc6955ff));
    v.push((0, 6, 0xb34848ff));
    v.push((0, 7, 0xeb7272ff));
    v.push((0, 8, 0xbd4a4aff));
    v.push((0, 9, 0x94795dff));
    v.push((0, 10, 0xc2a37aff));
    v.push((0, 11, 0x9c8369ff));
    v.push((0, 18, 0xd77575ff));
    v.push((0, 19, 0xfff5e1ff));
    proof {
        assert(v@ =~= seq![(0u8, 0u8, 0xe58b68ffu32), (0u8, 1u8, 0xfeda96ffu32), (0u8, 2u8, 0xe59b5fffu32), (0u8, 3u8, 0xee813fffu32), (0u8, 4u8, 0xfcd85bffu32), (0u8, 5u8, 0xfc6955ffu32), (0u8, 6u8, 0xb34848ffu32), (0u8, 7u8, 0xeb7272ffu32), (0u8, 8u8, 0xbd4a4affu32), (0u8, 9u8, 0x94795dffu32), (0u8, 10u8, 0xc2a37affu32), (0u8, 11u8, 0x9c8369ffu32), (0u8, 18u8, 0xd77575ffu32), (0u8, 19u8, 0xfff5e1ffu32)]);
    }
    v
}

/// The terminal theme: phosphor green on near-black.
pub fn terminal() -> (r: Vec<(u8, u8, u32)>)
    ensures
        r@ == seq![(0u8, 0u8, 0x1c8d00ffu32), (0u8, 1u8, 0x161313ffu32), (0u8, 2u8, 0x38f620ffu32), (0u8, 3u8, 0xc3fbc6ffu32), (0u8, 4u8, 0x43bf2effu32), (0u8, 5u8, 0xdcfadcffu32), (0u8, 6u8, 0x1f5b19ffu32), (0u8, 7u8, 0x43ff28ffu32), (0u8, 8u8, 0x1e6f15ffu32), (0u8, 9u8, 0x223b22ffu32), (0u8, 10u8, 0x182c18ffu32), (0u8, 11u8, 0x244125ffu32), (0u8, 18u8, 0xe6fce3ffu32), (0u8, 19u8, 0x0c1505ffu32)],
{
    let mut v: Vec<(u8, u8, u32)> = Vec::new();

    v.push((0, 0, 0x1c8d00ff));
    v.push((0, 1, 0x161313ff));
    v.push((0, 2, 0x38f620ff));
    v.push((0, 3, 0xc3fbc6ff));
    v.push((0, 4, 0x43bf2eff));
    v.push((0, 5, 0xdcfadcff));
    v.push((0, 6, 0x1f5b19ff));
    v.push((0, 7, 0x43ff28ff));
    v.push((0, 8, 0x1e6f15ff));
    v.push((0, 9, 0x223b22ff));
    v.push((0, 10, 0x182c18ff));
    v.push((0, 11, 0x244125ff));
    v.push((0, 18, 0xe6fce3ff));
    v.push((0, 19, 0x0c1505ff));
    proof {
        assert(v@ =~= seq![(0u8, 0u8, 0x1c8d00ffu32), (0u8, 1u8, 0x161313ffu32), (0u8, 2u8, 0x38f620ffu32), (0u8, 3u8, 0xc3fbc6ffu32), (0u8, 4u8, 0x43bf2effu32), (0u8, 5u8, 0xdcfadcffu32), (0u8, 6u8, 0x1f5b19ffu32), (0u8, 7u8, 0x43ff28ffu32), (0u8, 8u8, 0x1e6f15ffu32), (0u8, 9u8, 0x223b22ffu32), (0u8, 10u8, 0x182c18ffu32), (0u8, 11u8, 0x244125ffu32), (0u8, 18u8, 0xe6fce3ffu32), (0u8, 19u8, 0x0c1505ffu32)]);
    }
    v
}

/// The ashes theme: neutral greys.
pub fn ashes() -> (r: Vec<(u8, u8, u32)>)
    ensures
        r@ == seq![(0u8, 0u8, 0xf0f0f0ffu32), (0u8, 1u8, 0x868686ffu32), (0u8, 2u8, 0xe6e6e6ffu32), (0u8, 3u8, 0x929999ffu32), (0u8, 4u8, 0xeaeaeaffu32), (0u8, 5u8, 0x98a1a8ffu32), (0u8, 6u8, 0x3f3f3fffu32), (0u8, 7u8, 0xf6f6f6ffu32), (0u8, 8u8, 0x414141ffu32), (0u8, 9u8, 0x8b8b8bffu32), (0u8, 10u8, 0x777777ffu32), (0u8, 11u8, 0x959595ffu32), (0u8, 19u8, 0x6b6b6bffu32)],
{
    let mut v: Vec<(u8, u8, u32)> = Vec::new();

    v.push((0, 0, 0xf0f0f0ff));
    v.push((0, 1, 0x868686ff));
    v.push((0, 2, 0xe6e6e6ff));
    v.push((0, 3, 0x929999ff));
    v.push((0, 4, 0xeaeaeaff));
    v.push((0, 5, 0x98a1a8ff));
    v.push((0, 6, 0x3f3f3fff));
    v.push((0, 7, 0xf6f6f6ff));
    v.push((0, 8, 0x414141ff));
    v.push((0, 9, 0x8b8b8bff));
    v.push((0, 10, 0x777777ff));
    v.push((0, 11, 0x959595ff));
    v.push((0, 19, 0x6b6b6bff));
    proof {
        assert(v@ =~= seq![(0u8, 0u8, 0xf0f0f0ffu32), (0u8, 1u8, 0x868686ffu32), (0u8, 2u8, 0xe6e6e6ffu32), (0u8, 3u8, 0x929999ffu32), (0u8, 4u8, 0xeaeaeaffu32), (0u8, 5u8, 0x98a1a8ffu32), (0u8, 6u8, 0x3f3f3fffu32), (0u8, 7u8, 0xf6f6f6ffu32), (0u8, 8u8, 0x414141ffu32), (0u8, 9u8, 0x8b8b8bffu32), (0u8, 10u8, 0x777777ffu32), (0u8, 11u8, 0x959595ffu32), (0u8, 19u8, 0x6b6b6bffu32)]);
    }
    v
}

/// The bluish theme: pale blue-greens.
pub fn bluish() -> (r: Vec<(u8, u8, u32)>)
    ensures
        r@ == seq![(0u8, 0u8, 0x5ca6a6ffu32), (0u8, 1u8, 0xb4e8f3ffu32), (0u8, 2u8, 0x447e77ffu32), (0u8, 3u8, 0x5f8792ffu32), (0u8, 4u8, 0xcdeff7ffu32), (0u8, 5u8, 0x4c6c74ffu32), (0u8, 6u8, 0x3b5b5fffu32), (0u8, 7u8, 0xeaffffffu32), (0u8, 8u8, 0x275057ffu32), (0u8, 9u8, 0x96aaacffu32), (0u8, 10u8, 0xc8d7d9ffu32), (0u8, 11u8, 0x8c9c9effu32), (0u8, 18u8, 0x84adb7ffu32), (0u8, 19u8, 0xe8eef1ffu32)],
{
    let mut v: Vec<(u8, u8, u32)> = Vec::new();

    v.push((0, 0, 0x5ca6a6ff));
    v.push((0, 1, 0xb4e8f3ff));
    v.push((0, 2, 0x447e77ff));
    v.push((0, 3, 0x5f8792ff));
    v.push((0, 4, 0xcdeff7ff));
    v.push((0, 5, 0x4c6c74ff));
    v.push((0, 6, 0x3b5b5fff));
    v.push((0, 7, 0xeaffffff));
    v.push((0, 8, 0x275057ff));
    v.push((0, 9, 0x96aaacff));
    v.push((0, 10, 0xc8d7d9ff));
    v.push((0, 11, 0x8c9c9eff));
    v.push((0, 18, 0x84adb7ff));
    v.push((0, 19, 0xe8eef1ff));
    proof {
        assert(v@ =~= seq![(0u8, 0u8, 0x5ca6a6ffu32), (0u8, 1u8, 0xb4e8f3ffu32), (0u8, 2u8, 0x447e77ffu32), (0u8, 3u8, 0x5f8792ffu32), (0u8, 4u8, 0xcdeff7ffu32), (0u8, 5u8, 0x4c6c74ffu32), (0u8, 6u8, 0x3b5b5fffu32), (0u8, 7u8, 0xeaffffffu32), (0u8, 8u8, 0x275057ffu32), (0u8, 9u8, 0x96aaacffu32), (0u8, 10u8, 0xc8d7d9ffu32), (0u8, 11u8, 0x8c9c9effu32), (0u8, 18u8, 0x84adb7ffu32), (0u8, 19u8, 0xe8eef1ffu32)]);
    }
    v
}

/// The dark theme: a dark scheme with light text.
pub fn dark() -> (r: Vec<(u8, u8, u32)>)
    ensures
        r@ == seq![(0u8, 0u8, 0x878787ffu32), (0u8, 1u8, 0x2c2c2cffu32), (0u8, 2u8, 0xc3c3c3ffu32), (0u8, 3u8, 0xe1e1e1ffu32), (0u8, 4u8, 0x848484ffu32), (0u8, 5u8, 0x181818ffu32), (0u8, 6u8, 0x000000ffu32), (0u8, 7u8, 0xefefefffu32), (0u8, 8u8, 0x202020ffu32), (0u8, 9u8, 0x6a6a6affu32), (0u8, 10u8, 0x818181ffu32), (0u8, 11u8, 0x606060ffu32), (0u8, 18u8, 0x9d9d9dffu32), (0u8, 19u8, 0x3c3c3cffu32), (1u8, 5u8, 0xf7f7f7ffu32), (1u8, 8u8, 0x898989ffu32), (4u8, 5u8, 0xb0b0b0ffu32), (5u8, 5u8, 0x848484ffu32), (9u8, 5u8, 0xf5f5f5ffu32), (10u8, 5u8, 0xf6f6f6ffu32)],
{
    let mut v: Vec<(u8, u8, u32)> = Vec::new();

    v.push((0, 0, 0x878787ff));
    v.push((0, 1, 0x2c2c2cff));
    v.push((0, 2, 0xc3c3c3ff));
    v.push((0, 3, 0xe1e1e1ff));
    v.push((0, 4, 0x848484ff));
    v.push((0, 5, 0x181818ff));
    v.push((0, 6, 0x000000ff));
    v.push((0, 7, 0xefefefff));
    v.push((0, 8, 0x202020ff));
    v.push((0, 9, 0x6a6a6aff));
    v.push((0, 10, 0x818181ff));
    v.push((0, 11, 0x606060ff));
    v.push((0, 18, 0x9d9d9dff));
    v.push((0, 19, 0x3c3c3cff));
    v.push((1, 5, 0xf7f7f7ff));
    v.push((1, 8, 0x898989ff));
    v.push((4, 5, 0xb0b0b0ff));
    v.push((5, 5, 0x848484ff));
    v.push((9, 5, 0xf5f5f5ff));
    v.push((10, 5, 0xf6f6f6ff));
    proof {
        assert(v@ =~= seq![(0u8, 0u8, 0x878787ffu32), (0u8, 1u8, 0x2c2c2cffu32), (0u8, 2u8, 0xc3c3c3ffu32), (0u8, 3u8, 0xe1e1e1ffu32), (0u8, 4u8, 0x848484ffu32), (0u8, 5u8, 0x181818ffu32), (0u8, 6u8, 0x000000ffu32), (0u8, 7u8, 0xefefefffu32), (0u8, 8u8, 0x202020ffu32), (0u8, 9u8, 0x6a6a6affu32), (0u8, 10u8, 0x818181ffu32), (0u8, 11u8, 0x606060ffu32), (0u8, 18u8, 0x9d9d9dffu32), (0u8, 19u8, 0x3c3c3cffu32), (1u8, 5u8, 0xf7f7f7ffu32), (1u8, 8u8, 0x898989ffu32), (4u8, 5u8, 0xb0b0b0ffu32), (5u8, 5u8, 0x848484ffu32), (9u8, 5u8, 0xf5f5f5ffu32), (10u8, 5u8, 0xf6f6f6ffu32)]);
    }
    v
}

/// The cherry theme: reds on maroon.
pub fn cherry() -> (r: Vec<(u8, u8, u32)>)
    ensures
        r@ == seq![(0u8, 0u8, 0xda5757ffu32), (0u8, 1u8, 0x753233ffu32), (0u8, 2u8, 0xe17373ffu32), (0u8, 3u8, 0xfaaa97ffu32), (0u8, 4u8, 0xe06262ffu32), (0u8, 5u8, 0xfdb4aaffu32), (0u8, 6u8, 0xe03c46ffu32), (0u8, 7u8, 0x5b1e20ffu32), (0u8, 8u8, 0xc2474fffu32), (0u8, 9u8, 0xa19292ffu32), (0u8, 10u8, 0x706060ffu32), (0u8, 11u8, 0x9e8585ffu32), (0u8, 18u8, 0xfb8170ffu32), (0u8, 19u8, 0x3a1720ffu32)],
{
    let mut v: Vec<(u8, u8, u32)> = Vec::new();

    v.push((0, 0, 0xda5757ff));
    v.push((0, 1, 0x753233ff));
    v.push((0, 2, 0xe17373ff));
    v.push((0, 3, 0xfaaa97ff));
    v.push((0, 4, 0xe06262ff));
    v.push((0, 5, 0xfdb4aaff));
    v.push((0, 6, 0xe03c46ff));
    v.push((0, 7, 0x5b1e20ff));
    v.push((0, 8, 0xc2474fff));
    v.push((0, 9, 0xa19292ff));
    v.push((0, 10, 0x706060ff));
    v.push((0, 11, 0x9e8585ff));
    v.push((0, 18, 0xfb8170ff));
    v.push((0, 19, 0x3a1720ff));
    proof {
        assert(v@ =~= seq![(0u8, 0u8, 0xda5757ffu32), (0u8, 1u8, 0x753233ffu32), (0u8, 2u8, 0xe17373ffu32), (0u8, 3u8, 0xfaaa97ffu32), (0u8, 4u8, 0xe06262ffu32), (0u8, 5u8, 0xfdb4aaffu32), (0u8, 6u8, 0xe03c46ffu32), (0u8, 7u8, 0x5b1e20ffu32), (0u8, 8u8, 0xc2474fffu32), (0u8, 9u8, 0xa19292ffu32), (0u8, 10u8, 0x706060ffu32), (0u8, 11u8, 0x9e8585ffu32), (0u8, 18u8, 0xfb8170ffu32), (0u8, 19u8, 0x3a1720ffu32)]);
    }
    v
}

/// The light theme: the default style, with no overrides.
pub fn light() -> (r: Vec<(u8, u8, u32)>)
    ensures
        r@ == Seq::<(u8, u8, u32)>::empty(),
{
    let v: Vec<(u8, u8, u32)> = Vec::new();
    proof {
        assert(v@ =~= Seq::<(u8, u8, u32)>::empty());
    }
    v
}

} // verus!
