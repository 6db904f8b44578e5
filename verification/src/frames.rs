//! Video frames for the canvas: when one is asked for, and which are kept.
use vstd::prelude::*;
use vstd::string::*;

verus! {

/// A frame that is asked for.
#[derive(Debug)]
pub struct VideoFrameRequest {
    pub path: String,
    pub time_ms: i64,
    pub width: u32,
    pub height: u32,
}

/// A frame that was decoded.
#[derive(Debug)]
pub struct VideoFrameResponse {
    pub time_ms: i64,
    pub width: u32,
    pub height: u32,
    pub rgb_data: Vec<u8>,
}

/// The size of the canvas's frames.
pub const FRAME_WIDTH: u32 = 480;

pub const FRAME_HEIGHT: u32 = 270;

/// How many frames are kept.
pub const CACHED_FRAMES: usize = 24;

/// What is known of the frame on the canvas.
#[derive(Debug)]
pub struct FrameState {
    /// When the frame shown is
    pub last_frame_ts: i64,
    /// Whether a frame is shown
    pub has_texture: bool,
    /// When the frame is that was asked for and has not come
    pub pending_req_ts: Option<i64>,
    /// When the frames are that are kept, the oldest first
    pub cached: Vec<i64>,
}

/// Two times lie closer together than `span`.
pub open spec fn is_close(a: i64, b: i64, span: int) -> bool {
    -span < a - b < span
}

fn close(a: i64, b: i64, span: i64) -> (res: bool)
    requires
        span >= 0,
    ensures
        res == is_close(a, b, span as int),
{
    let diff: i128 = a as i128 - b as i128;
    -(span as i128) < diff && diff < span as i128
}

/// The frames kept after one more.
pub open spec fn cached_after(cached: Seq<i64>, ts: i64) -> Seq<i64> {
    if cached.len() >= CACHED_FRAMES {
        cached.skip(1).push(ts)
    } else {
        cached.push(ts)
    }
}

impl FrameState {
    /// No frame is shown, and none was asked for.
    pub open spec fn is_blank(&self) -> bool {
        &&& self.last_frame_ts == -999
        &&& !self.has_texture
        &&& self.pending_req_ts is None
        &&& self.cached@.len() == 0
    }

    /// A canvas without a frame.
    pub fn new() -> (res: Self)
        ensures
            res.is_blank(),
    {
        FrameState {
            last_frame_ts: -999,
            has_texture: false,
            pending_req_ts: None,
            cached: Vec::new(),
        }
    }

    /// Forgets every frame, as for another video.
    pub fn reset(&mut self)
        ensures
            final(self).is_blank(),
    {
        self.last_frame_ts = -999;
        self.has_texture = false;
        self.pending_req_ts = None;
        self.cached.clear();
    }

    /// Whether another frame is wanted: the one shown, if any, is too far from the
    /// playhead.
    pub fn needs_frame(&self, cursor_ms: i64) -> (res: bool)
        ensures
            res == !(self.has_texture && is_close(cursor_ms, self.last_frame_ts, 20)),
    {
        !(close(cursor_ms, self.last_frame_ts, 20) && self.has_texture)
    }

    /// A frame came out of the running stream.
    pub fn streamed(&mut self, ts: i64)
        ensures
            *final(self) == (FrameState {
                last_frame_ts: ts,
                has_texture: true,
                pending_req_ts: None,
                ..*old(self)
            }),
    {
        self.last_frame_ts = ts;
        self.has_texture = true;
        self.pending_req_ts = None;
    }

    /// Asks for the frame at the playhead, unless one close to it is on its way.
    pub fn request(&mut self, path: &str, cursor_ms: i64) -> (req: Option<VideoFrameRequest>)
        ensures
            ({
                let awaited = old(self).pending_req_ts matches Some(t) && is_close(
                    cursor_ms,
                    t,
                    35,
                );
                &&& req is None <==> awaited
                &&& awaited ==> *final(self) == *old(self)
                &&& !awaited ==> *final(self) == (FrameState {
                    pending_req_ts: Some(cursor_ms),
                    ..*old(self)
                })
                &&& req matches Some(r) ==> {
                    &&& r.path@ == path@
                    &&& r.time_ms == cursor_ms
                    &&& r.width == FRAME_WIDTH
                    &&& r.height == FRAME_HEIGHT
                }
            }),
    {
        if let Some(t) = self.pending_req_ts {
            if close(cursor_ms, t, 35) {
                return None;
            }
        }
        self.pending_req_ts = Some(cursor_ms);
        Some(
            VideoFrameRequest {
                path: path.to_owned(),
                time_ms: cursor_ms,
                width: FRAME_WIDTH,
                height: FRAME_HEIGHT,
            },
        )
    }

    /// A frame that was asked for came. Says whether the oldest that is kept goes.
    pub fn responded(&mut self, ts: i64) -> (evicted: bool)
        ensures
            evicted == (old(self).cached.len() >= CACHED_FRAMES),
            final(self).cached@ == cached_after(old(self).cached@, ts),
            final(self).last_frame_ts == ts,
            final(self).has_texture,
            final(self).pending_req_ts is None,
    {
        let evicted: bool = self.cached.len() >= CACHED_FRAMES;
        if evicted {
            let _ = self.cached.remove(0);
            assert(self.cached@ =~= old(self).cached@.skip(1));
        }
        self.cached.push(ts);
        self.last_frame_ts = ts;
        self.has_texture = true;
        self.pending_req_ts = None;
        evicted
    }
}

/// Never more frames are kept than there is room for.
pub proof fn lemma_cache_bounded(cached: Seq<i64>, ts: i64)
    requires
        cached.len() <= CACHED_FRAMES,
    ensures
        cached_after(cached, ts).len() <= CACHED_FRAMES,
        cached_after(cached, ts).last() == ts,
{
}

/// The request to serve of those that have come: the newest.
pub fn newest_request(requests: Vec<VideoFrameRequest>) -> (res: Option<VideoFrameRequest>)
    ensures
        requests.len() == 0 ==> res is None,
        requests.len() > 0 ==> res == Some(requests@.last()),
{
    let mut rest: Vec<VideoFrameRequest> = requests;
    rest.pop()
}

/// The reply to a request: its time and size, with the pixels.
pub fn frame_response(request: &VideoFrameRequest, rgb_data: Vec<u8>) -> (res: VideoFrameResponse)
    ensures
        res.time_ms == request.time_ms,
        res.width == request.width,
        res.height == request.height,
        res.rgb_data == rgb_data,
{
    VideoFrameResponse {
        time_ms: request.time_ms,
        width: request.width,
        height: request.height,
        rgb_data,
    }
}

/// A new frame is kept as the newest, and the others in their order; only where there is no
/// room the oldest goes.
pub proof fn lemma_frames_kept(cached: Seq<i64>, ts: i64)
    requires
        cached.len() <= CACHED_FRAMES,
    ensures
        ({
            let after = cached_after(cached, ts);
            &&& after.last() == ts
            &&& cached.len() < CACHED_FRAMES ==> after.drop_last() == cached
            &&& cached.len() == CACHED_FRAMES ==> after.drop_last() == cached.drop_first()
        }),
{
    let after = cached_after(cached, ts);
    if cached.len() < CACHED_FRAMES {
        assert(after.drop_last() =~= cached);
    } else {
        assert(after.drop_last() =~= cached.drop_first());
    }
}

/// Closeness does not depend on the order of the two times, and ends at the span.
pub proof fn lemma_close(a: i64, b: i64, span: int)
    requires
        span > 0,
    ensures
        is_close(a, b, span) <==> is_close(b, a, span),
        is_close(a, a, span),
        a < b ==> (is_close(a, b, span) <==> b - a < span),
{
}

} // verus!
