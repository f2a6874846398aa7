//! The render system: one render request per tick becomes a frame of draw
//! commands.
//!
//! A frame clears the background, then draws the tile of every entity that
//! holds a transform and a tile, then the rectangle of every entity that
//! holds a transform and a rectangle, each group in the order of the entity
//! ids. There is no other ordering by depth.
//!
//! A position is multiplied by the number of pixels that the system takes
//! for one world unit, 64 where transforms count tiles and 1 where they
//! count pixels, and the whole frame is then drawn at half size.

use vstd::prelude::*;
use crate::components::{AtlasId, Colour, RenderRect, Tile, Transform};
use crate::events::{RenderArgs, RenderEvents};
use crate::fixed::Fixed;
use crate::storage::{lookup, Storage};
use crate::world::WorldState;

verus! {

/// The length of a tile's side in pixels: the pixels per world unit where
/// transforms count tiles.
pub const TILE_PIXELS: i64 = 64;

/// The colour that a frame is cleared to: transparent black.
pub open spec fn spec_background() -> Colour {
    Colour { red: 0, green: 0, blue: 0, alpha: 0 }
}

/// The colour that a frame is cleared to.
pub fn background() -> (colour: Colour)
    ensures
        colour == spec_background(),
{
    Colour { red: 0, green: 0, blue: 0, alpha: 0 }
}

/// The factor by which a whole frame is scaled when it is drawn: one half.
pub open spec fn spec_display_scale() -> Fixed {
    Fixed { micros: 500_000 }
}

/// The factor by which a whole frame is scaled when it is drawn.
pub fn display_scale() -> (scale: Fixed)
    ensures
        scale == spec_display_scale(),
{
    Fixed { micros: 500_000 }
}

/// One drawing primitive. Positions and sizes are in pixels before the
/// display scale is applied.
#[derive(Clone, Copy, Debug, PartialEq, Eq, Structural)]
pub enum DrawCommand {
    /// Fill the whole frame with a colour.
    Clear { colour: Colour },
    /// Draw the rectangle `source` of an atlas, in atlas pixels, with its
    /// top left corner at `(x, y)`.
    Sprite { atlas: AtlasId, source: Tile, x: Fixed, y: Fixed },
    /// Fill a rectangle with its top left corner at `(x, y)`.
    Rect { colour: Colour, x: Fixed, y: Fixed, width: Fixed, height: Fixed },
}

/// What is drawn for one render request.
#[derive(Debug, PartialEq, Eq)]
pub struct Frame {
    /// The request that the frame answers.
    pub args: RenderArgs,
    /// The factor by which the caller scales everything it draws.
    pub scale: Fixed,
    /// The draw commands, in the order in which they are to be carried out.
    pub commands: Vec<DrawCommand>,
}

/// The command that draws `tile` for an entity at `transform`, with
/// `ppu` pixels per world unit.
pub open spec fn sprite_command(transform: Transform, tile: Tile, ppu: i64) -> DrawCommand {
    DrawCommand::Sprite {
        atlas: tile.atlas,
        source: tile,
        x: transform.x.times(ppu as int),
        y: transform.y.times(ppu as int),
    }
}

/// The command that draws `rect` for an entity at `transform`, with `ppu`
/// pixels per world unit.
pub open spec fn rect_command(transform: Transform, rect: RenderRect, ppu: i64) -> DrawCommand {
    DrawCommand::Rect {
        colour: rect.colour,
        x: transform.x.times(ppu as int),
        y: transform.y.times(ppu as int),
        width: rect.width,
        height: rect.height,
    }
}

/// The sprite commands for the first `n` entity slots, by rising id.
pub open spec fn sprite_commands(
    transforms: Seq<Option<Transform>>,
    tiles: Seq<Option<Tile>>,
    ppu: i64,
    n: int,
) -> Seq<DrawCommand>
    decreases n,
{
    if n <= 0 {
        Seq::empty()
    } else {
        let before = sprite_commands(transforms, tiles, ppu, n - 1);
        if lookup(transforms, n - 1).is_some() && lookup(tiles, n - 1).is_some() {
            before.push(sprite_command(transforms[n - 1].unwrap(), tiles[n - 1].unwrap(), ppu))
        } else {
            before
        }
    }
}

/// The rectangle commands for the first `n` entity slots, by rising id.
pub open spec fn rect_commands(
    transforms: Seq<Option<Transform>>,
    rects: Seq<Option<RenderRect>>,
    ppu: i64,
    n: int,
) -> Seq<DrawCommand>
    decreases n,
{
    if n <= 0 {
        Seq::empty()
    } else {
        let before = rect_commands(transforms, rects, ppu, n - 1);
        if lookup(transforms, n - 1).is_some() && lookup(rects, n - 1).is_some() {
            before.push(rect_command(transforms[n - 1].unwrap(), rects[n - 1].unwrap(), ppu))
        } else {
            before
        }
    }
}

/// The commands of a whole frame: the clear, then all sprites, then all
/// rectangles.
pub open spec fn frame_commands(
    transforms: Seq<Option<Transform>>,
    tiles: Seq<Option<Tile>>,
    rects: Seq<Option<RenderRect>>,
    ppu: i64,
) -> Seq<DrawCommand> {
    seq![DrawCommand::Clear { colour: spec_background() }] + sprite_commands(
        transforms,
        tiles,
        ppu,
        transforms.len() as int,
    ) + rect_commands(transforms, rects, ppu, transforms.len() as int)
}

/// A frame as plain mathematical values.
pub ghost struct FramePlan {
    pub args: RenderArgs,
    pub scale: Fixed,
    pub commands: Seq<DrawCommand>,
}

impl View for Frame {
    type V = FramePlan;

    open spec fn view(&self) -> FramePlan {
        FramePlan { args: self.args, scale: self.scale, commands: self.commands@ }
    }
}

/// The frame that the render system draws for a world, if a render request
/// waits.
pub open spec fn frame_of(state: WorldState, ppu: i64) -> Option<FramePlan> {
    if state.render_events.len() == 0 {
        None
    } else {
        Some(
            FramePlan {
                args: state.render_events[0],
                scale: spec_display_scale(),
                commands: frame_commands(state.transforms, state.tiles, state.rects, ppu),
            },
        )
    }
}

/// The world after one run of the render system: the oldest render request
/// is gone, and nothing else has changed.
pub open spec fn after_render(state: WorldState) -> WorldState {
    if state.render_events.len() == 0 {
        state
    } else {
        WorldState { render_events: state.render_events.drop_first(), ..state }
    }
}

/// The render system.
#[derive(Clone, Copy, Debug, PartialEq, Eq, Structural)]
pub struct RenderSys {
    /// The number of pixels that one world unit takes.
    pub pixels_per_unit: i64,
}

impl RenderSys {
    /// A render system that takes `pixels_per_unit` pixels for one world
    /// unit.
    pub fn new(pixels_per_unit: i64) -> (system: RenderSys)
        ensures
            system.pixels_per_unit == pixels_per_unit,
    {
        RenderSys { pixels_per_unit }
    }

    /// Takes the oldest render request, if there is one, and returns the
    /// frame to draw for it. Without a request nothing happens.
    pub fn run(
        &self,
        render_events: &mut RenderEvents,
        transforms: &Storage<Transform>,
        tiles: &Storage<Tile>,
        rects: &Storage<RenderRect>,
    ) -> (frame: Option<Frame>)
        requires
            transforms@.len() <= u32::MAX,
        ensures
            old(render_events)@.len() == 0 ==> frame.is_none() && final(render_events)@ == old(
                render_events,
            )@,
            old(render_events)@.len() > 0 ==> {
                &&& final(render_events)@ == old(render_events)@.drop_first()
                &&& frame.is_some()
                &&& frame.unwrap().args == old(render_events)@[0]
                &&& frame.unwrap().scale == spec_display_scale()
                &&& frame.unwrap().commands@ == frame_commands(
                    transforms@,
                    tiles@,
                    rects@,
                    self.pixels_per_unit,
                )
            },
    {
        let args: RenderArgs = match render_events.pop() {
            Some(args) => args,
            None => {
                return None;
            },
        };
        let ppu: i64 = self.pixels_per_unit;
        let mut commands: Vec<DrawCommand> = Vec::new();
        commands.push(DrawCommand::Clear { colour: background() });
        let ghost clear = commands@;
        let n: usize = transforms.len();
        let mut i: usize = 0;
        while i < n
            invariant
                i <= n,
                n == transforms@.len(),
                n <= u32::MAX,
                commands@ == clear + sprite_commands(transforms@, tiles@, ppu, i as int),
            decreases n - i,
        {
            match (transforms.get(i as u32), tiles.get(i as u32)) {
                (Some(transform), Some(tile)) => {
                    commands.push(
                        DrawCommand::Sprite {
                            atlas: tile.atlas,
                            source: tile,
                            x: transform.x.scaled(ppu),
                            y: transform.y.scaled(ppu),
                        },
                    );
                },
                _ => {},
            }
            i += 1;
            assert(commands@ =~= clear + sprite_commands(transforms@, tiles@, ppu, i as int));
        }
        let ghost sprites = commands@;
        let mut i: usize = 0;
        while i < n
            invariant
                i <= n,
                n == transforms@.len(),
                n <= u32::MAX,
                commands@ == sprites + rect_commands(transforms@, rects@, ppu, i as int),
            decreases n - i,
        {
            match (transforms.get(i as u32), rects.get(i as u32)) {
                (Some(transform), Some(rect)) => {
                    commands.push(
                        DrawCommand::Rect {
                            colour: rect.colour,
                            x: transform.x.scaled(ppu),
                            y: transform.y.scaled(ppu),
                            width: rect.width,
                            height: rect.height,
                        },
                    );
                },
                _ => {},
            }
            i += 1;
            assert(commands@ =~= sprites + rect_commands(transforms@, rects@, ppu, i as int));
        }
        Some(Frame { args, scale: display_scale(), commands })
    }
}

} // verus!
