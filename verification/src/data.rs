//! The plain data that crosses the boundary between the simulation
//! thread and the presentation thread: input events, outbound requests,
//! and draw commands. The presentation side resolves these against its
//! own windowing and audio backend; here they are pure values.

use vstd::prelude::*;

verus! {

/// An RGBA color.
#[derive(Clone, Copy, PartialEq, Eq, Structural, Debug)]
pub struct Color {
    pub r: u8,
    pub g: u8,
    pub b: u8,
    pub a: u8,
}

/// An axis-aligned rectangle: top-left corner, width and height in pixels.
#[derive(Clone, Copy, PartialEq, Eq, Structural, Debug)]
pub struct Rect {
    pub x: i32,
    pub y: i32,
    pub w: u32,
    pub h: u32,
}

/// A point in window coordinates.
#[derive(Clone, Copy, PartialEq, Eq, Structural, Debug)]
pub struct Point {
    pub x: i32,
    pub y: i32,
}

/// One input event, translated by the presentation side from its event
/// backend into plain values before being pushed into the shared state.
#[derive(Clone, Copy, PartialEq, Eq, Structural, Debug)]
pub enum EventData {
    KeyDown { keycode: i32, scancode: u32, keymod: u16 },
}

/// A request to the audio subsystem. Playback itself is the
/// presentation side's concern; the simulation only emits the request.
/// The catalogue is deliberately minimal: one request, naming a sound
/// by an identifier the presentation side's audio backend resolves.
#[derive(Clone, Copy, PartialEq, Eq, Structural, Debug)]
pub enum AudioRequest {
    PlaySound(u32),
}

/// A request to the windowing subsystem, acted on by the presentation
/// thread.
#[derive(Clone, Copy, PartialEq, Eq, Structural, Debug)]
pub enum WindowRequest {
    DisableFullscreen,
    EnableDesktopFullscreen,
    EnableFullscreen,
    Resize(u32, u32),
    SetBackgroundColor(Color),
}

/// One outbound request from the simulation thread: audio, window, or
/// a control request asking the host to shut down.
#[derive(Clone, Copy, PartialEq, Eq, Structural, Debug)]
pub enum GameRequest {
    AudioRequest(AudioRequest),
    WindowRequest(WindowRequest),
    Stop,
}

impl From<AudioRequest> for GameRequest {
    fn from(value: AudioRequest) -> (r: GameRequest) {
        GameRequest::AudioRequest(value)
    }
}

impl vstd::std_specs::convert::FromSpecImpl<AudioRequest> for GameRequest {
    open spec fn obeys_from_spec() -> bool {
        true
    }

    open spec fn from_spec(value: AudioRequest) -> GameRequest {
        GameRequest::AudioRequest(value)
    }
}

impl From<WindowRequest> for GameRequest {
    fn from(value: WindowRequest) -> (r: GameRequest) {
        GameRequest::WindowRequest(value)
    }
}

impl vstd::std_specs::convert::FromSpecImpl<WindowRequest> for GameRequest {
    open spec fn obeys_from_spec() -> bool {
        true
    }

    open spec fn from_spec(value: WindowRequest) -> GameRequest {
        GameRequest::WindowRequest(value)
    }
}

/// The audio requests of a drained batch, in their queue order.
pub open spec fn audio_requests_of(s: Seq<GameRequest>) -> Seq<AudioRequest>
    decreases s.len(),
{
    if s.len() == 0 {
        Seq::empty()
    } else {
        audio_requests_of(s.drop_last()) + (match s.last() {
            GameRequest::AudioRequest(a) => seq![a],
            _ => Seq::empty(),
        })
    }
}

/// The window requests of a drained batch, in their queue order.
pub open spec fn window_requests_of(s: Seq<GameRequest>) -> Seq<WindowRequest>
    decreases s.len(),
{
    if s.len() == 0 {
        Seq::empty()
    } else {
        window_requests_of(s.drop_last()) + (match s.last() {
            GameRequest::WindowRequest(w) => seq![w],
            _ => Seq::empty(),
        })
    }
}

/// Whether a drained batch asks the host to shut down.
pub open spec fn requests_stop(s: Seq<GameRequest>) -> bool {
    exists|i: int| 0 <= i < s.len() && s[i] is Stop
}

/// The requests of one drained batch, split by the subsystem that acts
/// on them: the audio requests in order, the window requests in order,
/// and whether any request asked for shutdown. The presentation side
/// drains the shared queue once per frame and routes the batch here
/// before touching its backend.
pub fn route_requests(requests: Vec<GameRequest>) -> (r: (Vec<AudioRequest>, Vec<WindowRequest>, bool))
    ensures
        r.0@ == audio_requests_of(requests@),
        r.1@ == window_requests_of(requests@),
        r.2 == requests_stop(requests@),
{
    let mut audio: Vec<AudioRequest> = Vec::new();
    let mut window: Vec<WindowRequest> = Vec::new();
    let mut stop = false;
    let n = requests.len();
    let mut i: usize = 0;
    while i < n
        invariant
            i <= n,
            n == requests@.len(),
            audio@ == audio_requests_of(requests@.take(i as int)),
            window@ == window_requests_of(requests@.take(i as int)),
            stop == requests_stop(requests@.take(i as int)),
        decreases n - i,
    {
        proof {
            assert(requests@.take(i as int + 1).drop_last() =~= requests@.take(i as int));
            assert(requests@.take(i as int + 1).last() == requests@[i as int]);
        }
        match requests[i] {
            GameRequest::AudioRequest(a) => {
                audio.push(a);
                proof {
                    assert(audio@ =~= audio_requests_of(requests@.take(i as int + 1)));
                    assert(window@ =~= window_requests_of(requests@.take(i as int + 1)));
                }
            },
            GameRequest::WindowRequest(w) => {
                window.push(w);
                proof {
                    assert(audio@ =~= audio_requests_of(requests@.take(i as int + 1)));
                    assert(window@ =~= window_requests_of(requests@.take(i as int + 1)));
                }
            },
            GameRequest::Stop => {
                stop = true;
                proof {
                    assert(audio@ =~= audio_requests_of(requests@.take(i as int + 1)));
                    assert(window@ =~= window_requests_of(requests@.take(i as int + 1)));
                    assert(requests_stop(requests@.take(i as int + 1)));
                }
            },
        }
        proof {
            if stop && !requests_stop(requests@.take(i as int)) {
                assert(requests@.take(i as int + 1)[i as int] == requests@[i as int]);
            }
            if requests_stop(requests@.take(i as int + 1)) {
                let w = choose|k: int|
                    0 <= k < requests@.take(i as int + 1).len() && (#[trigger] requests@.take(
                        i as int + 1,
                    )[k]) is Stop;
                if w < i {
                    assert(requests@.take(i as int)[w] is Stop);
                }
            }
        }
        i = i + 1;
    }
    proof {
        assert(requests@.take(n as int) =~= requests@);
    }
    (audio, window, stop)
}

/// One draw command, describing a primitive or a texture blit for the
/// presentation side to render. Textures are referenced by a string
/// identifier resolved by the presentation-side texture cache. The
/// rotation angle of an extended blit is carried as the bit pattern of
/// a binary64 degree value; the simulation never computes with it.
#[derive(Clone, PartialEq, Eq, Debug)]
pub enum DrawData {
    Rectangle { rect: Rect, color: Color },
    FilledRectangle { rect: Rect, color: Color },
    Circle { x: i16, y: i16, rad: i16, color: Color },
    FilledCircle { x: i16, y: i16, rad: i16, color: Color },
    Texture { id: String, src: Option<Rect>, dst: Option<Rect> },
    TextureEx {
        id: String,
        src: Option<Rect>,
        dst: Option<Rect>,
        center: Option<Point>,
        angle_bits: u64,
        flip_h: bool,
        flip_v: bool,
    },
}

} // verus!
