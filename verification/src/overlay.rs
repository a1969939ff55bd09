use vstd::prelude::*;
use crate::cycle::views;
use crate::text::{decimal, decimal_text, str_eq};

verus! {

/// Which side of the stroked segment a line is drawn on.
pub enum LineSide {
    Left,
    Right,
    Center,
}

/// A shape for the overlay server to draw. Widths are whole pixels.
pub enum DrawOperation {
    Rectangle {
        x1: i32,
        y1: i32,
        x2: i32,
        y2: i32,
        fill_color: String,
        outline_width: u32,
        outline_color: String,
    },
    Line { x1: i32, y1: i32, x2: i32, y2: i32, width: u32, side: LineSide, color: String },
}

/// A layer of shapes for the overlay server, optionally expiring.
pub struct OverlayCommand {
    pub layer: Option<i32>,
    pub timeout_ms: Option<u64>,
    pub operations: Vec<DrawOperation>,
}

/// A program to start, with its arguments.
pub struct ProcessCall {
    pub program: String,
    pub args: Vec<String>,
}

/// Whether `op` is the rectangle with these corners, colours and outline width.
pub open spec fn is_rect(
    op: DrawOperation,
    x1: i32,
    y1: i32,
    x2: i32,
    y2: i32,
    fill: Seq<char>,
    width: u32,
    outline: Seq<char>,
) -> bool {
    match op {
        DrawOperation::Rectangle {
            x1: a,
            y1: b,
            x2: c,
            y2: d,
            fill_color,
            outline_width,
            outline_color,
        } => a == x1 && b == y1 && c == x2 && d == y2 && fill_color@ == fill && outline_width
            == width && outline_color@ == outline,
        _ => false,
    }
}

/// Whether `op` is the centred line with these ends, width and colour.
pub open spec fn is_center_line(
    op: DrawOperation,
    x1: i32,
    y1: i32,
    x2: i32,
    y2: i32,
    width: u32,
    color: Seq<char>,
) -> bool {
    match op {
        DrawOperation::Line { x1: a, y1: b, x2: c, y2: d, width: w, side, color: col } => a == x1
            && b == y1 && c == x2 && d == y2 && w == width && side is Center && col@ == color,
        _ => false,
    }
}

/// Whether `call` runs `program` with exactly `args`.
pub open spec fn is_call(call: ProcessCall, program: Seq<char>, args: Seq<Seq<char>>) -> bool {
    call.program@ == program && views(call.args@) == args
}

fn strings(a: &str, b: &str, c: &str) -> (r: Vec<String>)
    ensures
        views(r@) == seq![a@, b@, c@],
{
    let r = vec![a.to_owned(), b.to_owned(), c.to_owned()];
    assert(views(r@) =~= seq![a@, b@, c@]);
    r
}

/// `wpctl set-volume @DEFAULT_AUDIO_SOURCE@ <vol>`: sets the microphone volume.
pub fn set_mic_volume(vol: &str) -> (r: ProcessCall)
    ensures
        is_call(r, "wpctl"@, seq!["set-volume"@, "@DEFAULT_AUDIO_SOURCE@"@, vol@]),
{
    ProcessCall { program: "wpctl".to_owned(), args: strings("set-volume", "@DEFAULT_AUDIO_SOURCE@", vol) }
}

/// `wpctl set-volume <id> <vol>` for each sink id, in order.
pub fn set_volume_calls(ids: &[u32], vol: &str) -> (r: Vec<ProcessCall>)
    ensures
        r@.len() == ids@.len(),
        forall|i: int|
            0 <= i < ids@.len() ==> is_call(
                #[trigger] r@[i],
                "wpctl"@,
                seq!["set-volume"@, decimal(ids@[i] as nat), vol@],
            ),
{
    let mut r: Vec<ProcessCall> = Vec::new();
    let mut i: usize = 0;
    while i < ids.len()
        invariant
            i <= ids@.len(),
            r@.len() == i,
            forall|k: int|
                0 <= k < i ==> is_call(
                    #[trigger] r@[k],
                    "wpctl"@,
                    seq!["set-volume"@, decimal(ids@[k] as nat), vol@],
                ),
        decreases ids@.len() - i,
    {
        let id = decimal_text(ids[i] as u64);
        r.push(ProcessCall { program: "wpctl".to_owned(), args: strings("set-volume", id.as_str(), vol) });
        i += 1;
    }
    r
}

/// Whether `r` is the volume overlay for bars `bar_height` pixels high: on
/// layer 1 for one second, a white bar at each screen edge, then four white
/// guide lines dividing the height in fifths.
pub open spec fn is_volume_overlay(r: OverlayCommand, bar_height: i32) -> bool {
    &&& r.layer == Some(1i32)
    &&& r.timeout_ms == Some(1000u64)
    &&& r.operations@.len() == 6
    &&& is_rect(r.operations@[0], 0, (1080 - bar_height) as i32, 10, 1080, "0xFFFFFFFF"@, 0, "0x00000000"@)
    &&& is_rect(r.operations@[1], 1910, (1080 - bar_height) as i32, 1920, 1080, "0xFFFFFFFF"@, 0, "0x00000000"@)
    &&& forall|i: int| 1 <= i <= 4 ==> is_center_line(
        #[trigger] r.operations@[i + 1],
        0,
        (i * 216) as i32,
        1920,
        (i * 216) as i32,
        1,
        "0xFFFFFFFF"@,
    )
}

/// The volume bars for the overlay: a white bar `bar_height` pixels high at
/// each screen edge, and four white guide lines dividing the height in fifths,
/// on layer 1 for one second.
pub fn volume_overlay(bar_height: i32) -> (r: OverlayCommand)
    requires
        0 <= bar_height <= 1080,
    ensures
        is_volume_overlay(r, bar_height),
{
    let mut operations: Vec<DrawOperation> = Vec::new();
    operations.push(DrawOperation::Rectangle {
        x1: 0,
        y1: 1080 - bar_height,
        x2: 10,
        y2: 1080,
        fill_color: "0xFFFFFFFF".to_owned(),
        outline_width: 0,
        outline_color: "0x00000000".to_owned(),
    });
    operations.push(DrawOperation::Rectangle {
        x1: 1910,
        y1: 1080 - bar_height,
        x2: 1920,
        y2: 1080,
        fill_color: "0xFFFFFFFF".to_owned(),
        outline_width: 0,
        outline_color: "0x00000000".to_owned(),
    });
    let segment_height: i32 = 1080 / 5;
    let mut i: i32 = 1;
    while i < 5
        invariant
            1 <= i <= 5,
            segment_height == 216,
            operations@.len() == i + 1,
            is_rect(operations@[0], 0, (1080 - bar_height) as i32, 10, 1080, "0xFFFFFFFF"@, 0, "0x00000000"@),
            is_rect(operations@[1], 1910, (1080 - bar_height) as i32, 1920, 1080, "0xFFFFFFFF"@, 0, "0x00000000"@),
            forall|k: int| 1 <= k < i ==> is_center_line(
                #[trigger] operations@[k + 1],
                0,
                (k * 216) as i32,
                1920,
                (k * 216) as i32,
                1,
                "0xFFFFFFFF"@,
            ),
        decreases 5 - i,
    {
        let y = i * segment_height;
        operations.push(DrawOperation::Line {
            x1: 0,
            y1: y,
            x2: 1920,
            y2: y,
            width: 1,
            side: LineSide::Center,
            color: "0xFFFFFFFF".to_owned(),
        });
        i += 1;
    }
    OverlayCommand { layer: Some(1), timeout_ms: Some(1000), operations }
}

/// What the push-to-talk toggle does for a state argument: the microphone
/// volume to set and the frame to show.
pub struct PttAction {
    pub volume: ProcessCall,
    pub overlay: OverlayCommand,
}

/// Push-to-talk toggle: for `"1"` open the microphone (volume 0.4) and draw a
/// white 5-pixel frame round a 1920x1080 screen, for `"0"` mute it and draw the
/// frame transparent; any other state does nothing.
pub fn run(state: &str) -> (r: Option<PttAction>)
    ensures
        r is Some <==> (state@ == "1"@ || state@ == "0"@),
        r matches Some(a) ==> {
            let (vol, outline) = if state@ == "1"@ {
                ("0.4"@, "0xFFFFFFFF"@)
            } else {
                ("0.0"@, "0x00000000"@)
            };
            &&& is_call(a.volume, "wpctl"@, seq!["set-volume"@, "@DEFAULT_AUDIO_SOURCE@"@, vol])
            &&& a.overlay.layer is None
            &&& a.overlay.timeout_ms is None
            &&& a.overlay.operations@.len() == 1
            &&& is_rect(a.overlay.operations@[0], 0, 0, 1920, 1080, "0x00000000"@, 5, outline)
        },
{
    let (vol, outline_color) = if str_eq(state, "1") {
        ("0.4", "0xFFFFFFFF")
    } else if str_eq(state, "0") {
        ("0.0", "0x00000000")
    } else {
        return None;
    };
    let volume = set_mic_volume(vol);
    let overlay = OverlayCommand {
        layer: None,
        timeout_ms: None,
        operations: vec![DrawOperation::Rectangle {
            x1: 0,
            y1: 0,
            x2: 1920,
            y2: 1080,
            fill_color: "0x00000000".to_owned(),
            outline_width: 5,
            outline_color: outline_color.to_owned(),
        }],
    };
    Some(PttAction { volume, overlay })
}

} // verus!
