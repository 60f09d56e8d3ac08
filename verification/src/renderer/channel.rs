//! Handing finished frames to a consumer.

use vstd::prelude::*;

use crate::renderer::buffer::{blank, frame_len, DisplayBuffer};

verus! {

/// A renderer that feeds its display buffer back over a channel. The channel holds the newest
/// frame only, and a counter tells how many frames have been finished.
#[derive(Debug)]
pub struct ChannelRenderer {
    pub displaybuffer: DisplayBuffer,
    pub sequence: u64,
    pub channel: Option<DisplayBuffer>,
}

/// A frame: its size and its bytes.
pub ghost struct FrameModel {
    pub width: u16,
    pub height: u16,
    pub frame: Seq<u8>,
}

/// What a renderer holds.
pub ghost struct RendererModel {
    pub drawing: FrameModel,
    pub sequence: u64,
    pub channel: Option<FrameModel>,
}

impl View for DisplayBuffer {
    type V = FrameModel;

    open spec fn view(&self) -> FrameModel {
        FrameModel { width: self.width, height: self.height, frame: self.frame@ }
    }
}

/// A blank frame.
pub open spec fn blank_frame(width: u16, height: u16) -> FrameModel {
    FrameModel { width, height, frame: blank(width, height) }
}

/// A renderer after it has finished a frame.
pub open spec fn updated(renderer: RendererModel) -> RendererModel {
    RendererModel {
        drawing: blank_frame(renderer.drawing.width, renderer.drawing.height),
        sequence: renderer.sequence.wrapping_add(1),
        channel: Some(renderer.drawing),
    }
}

impl View for ChannelRenderer {
    type V = RendererModel;

    open spec fn view(&self) -> RendererModel {
        RendererModel {
            drawing: self.displaybuffer@,
            sequence: self.sequence,
            channel: match self.channel {
                Some(buffer) => Some(buffer@),
                None => None,
            },
        }
    }
}

impl ChannelRenderer {
    /// Whether the frame that is being drawn has the bytes that its size calls for.
    pub open spec fn well_formed(self) -> bool {
        self.displaybuffer.well_formed()
    }

    /// How many frames have been finished.
    pub fn frame_sequence(&self) -> (sequence: u64)
        ensures
            sequence == self@.sequence,
    {
        self.sequence
    }

    /// The channel, from which a consumer takes the newest frame.
    pub fn get_receiver(&mut self) -> (channel: &mut Option<DisplayBuffer>)
        ensures
            *channel == old(self).channel,
            *final(self) == (ChannelRenderer { channel: *final(channel), ..*old(self) }),
    {
        &mut self.channel
    }

    /// Creates a new renderer with a screen of the given size
    pub fn new(width: u16, height: u16) -> (renderer: Self)
        requires
            frame_len(width, height) <= usize::MAX,
        ensures
            renderer.well_formed(),
            renderer@ == (RendererModel {
                drawing: blank_frame(width, height),
                sequence: 0,
                channel: None,
            }),
    {
        ChannelRenderer {
            displaybuffer: DisplayBuffer::new(width, height),
            sequence: 0,
            channel: None,
        }
    }

    /// The frame that is being drawn.
    pub fn buffer_mut(&mut self) -> (buffer: &mut DisplayBuffer)
        ensures
            *buffer == old(self).displaybuffer,
            *final(self) == (ChannelRenderer { displaybuffer: *final(buffer), ..*old(self) }),
    {
        &mut self.displaybuffer
    }

    /// Renders changes to screen
    pub fn update(&mut self)
        requires
            old(self).well_formed(),
        ensures
            final(self).well_formed(),
            final(self)@ == updated(old(self)@),
    {
        let mut buffer = self.displaybuffer.new_from_this();
        std::mem::swap(&mut self.displaybuffer, &mut buffer);
        self.channel = Some(buffer);
        self.sequence = self.sequence.wrapping_add(1);
    }
}

/// A renderer after a number of frames, each of which was drawn over the blank one.
pub open spec fn rendered(renderer: RendererModel, frames: Seq<FrameModel>) -> RendererModel
    decreases frames.len(),
{
    if frames.len() == 0 {
        renderer
    } else {
        updated(
            RendererModel {
                drawing: frames.last(),
                ..rendered(renderer, frames.drop_last())
            },
        )
    }
}

/// Whatever the consumer missed, the channel holds the newest frame, and the counter tells how
/// many frames there were.
pub proof fn law_newest_frame_wins(renderer: RendererModel, frames: Seq<FrameModel>)
    requires
        frames.len() > 0,
    ensures
        rendered(renderer, frames).channel == Some(frames.last()),
        rendered(renderer, frames).sequence as int == (renderer.sequence + frames.len()) % (u64::MAX
            + 1),
    decreases frames.len(),
{
    if frames.len() > 1 {
        law_newest_frame_wins(renderer, frames.drop_last());
    } else {
        assert(rendered(renderer, frames.drop_last()) == renderer);
    }
}

/// A new renderer has finished no frame and its channel is empty. After a number of frames that
/// nobody took, it has counted them, and its channel holds the last.
pub proof fn law_new_renderer_counts_from_zero(width: u16, height: u16, frames: Seq<FrameModel>)
    ensures
        ({
            let renderer = RendererModel {
                drawing: blank_frame(width, height),
                sequence: 0,
                channel: None,
            };
            let after = rendered(renderer, frames);
            &&& after.sequence as int == frames.len() % (u64::MAX + 1) as nat
            &&& after.channel == if frames.len() == 0 {
                None
            } else {
                Some(frames.last())
            }
        }),
{
    let renderer = RendererModel {
        drawing: blank_frame(width, height),
        sequence: 0,
        channel: None,
    };
    if frames.len() > 0 {
        law_newest_frame_wins(renderer, frames);
    }
}

/// Finishing a frame hands it over as it was drawn, counts it in 64 bits, and goes on with a frame of
/// the same size whose pixels, of four bytes each, are all zero.
pub proof fn law_update_means(renderer: RendererModel)
    ensures
        ({
            let after = updated(renderer);
            &&& after.channel == Some(renderer.drawing)
            &&& after.sequence == (renderer.sequence + 1) % 0x1_0000_0000_0000_0000
            &&& after.drawing.width == renderer.drawing.width
            &&& after.drawing.height == renderer.drawing.height
            &&& after.drawing.frame.len() == renderer.drawing.width * renderer.drawing.height * 4
            &&& forall|i: int|
                0 <= i < after.drawing.frame.len() ==> #[trigger] after.drawing.frame[i] == 0
        }),
{
    assert(renderer.drawing.width * renderer.drawing.height >= 0) by (nonlinear_arith)
        requires
            renderer.drawing.width >= 0,
            renderer.drawing.height >= 0,
    ;
}

} // verus!
