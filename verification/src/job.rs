//! The steps of a zoom level, in the order in which they are taken.
use vstd::prelude::*;

verus! {

/// Something that is done for a zoom level.
#[derive(Clone, Copy, Debug, PartialEq, Eq, Structural)]
pub enum Step {
    /// Create the directory of the zoom level.
    CreateZoomDir,
    /// Scale the image to the pixels of the zoom level.
    Scale,
    /// Create the directory of a column.
    CreateColumnDir(u32),
    /// Render a batch of tiles on the GPU, encode them and write them.
    RenderBatch(usize),
    /// Cut all tiles out of the scaled image, encode them and write them.
    CutTiles,
}

/// Where the tiles of a zoom level come from.
#[derive(Clone, Copy, Debug, PartialEq, Eq, Structural)]
pub enum TileSource {
    /// The GPU renders them in this many batches.
    Gpu(usize),
    /// They are cut out of a scaled image.
    Cpu,
}

/// The directories of the columns from `first` on.
pub open spec fn column_steps(first: int, columns: int) -> Seq<Step> {
    Seq::new((columns - first) as nat, |i: int| Step::CreateColumnDir((first + i) as u32))
}

/// The batches from `first` on.
pub open spec fn batch_steps(first: int, batches: int) -> Seq<Step> {
    Seq::new((batches - first) as nat, |i: int| Step::RenderBatch((first + i) as usize))
}

/// The steps that write tiles.
pub open spec fn tile_steps(source: TileSource) -> Seq<Step> {
    match source {
        TileSource::Gpu(batches) => batch_steps(0, batches as int),
        TileSource::Cpu => seq![Step::CutTiles],
    }
}

/// All steps of a zoom level with the given number of columns: its directory, then the scaled
/// image if one is needed, then the directories of the columns, then the tiles.
pub open spec fn all_steps(columns: u32, source: TileSource) -> Seq<Step> {
    let scale = if source == TileSource::Cpu {
        seq![Step::Scale]
    } else {
        Seq::empty()
    };
    seq![Step::CreateZoomDir] + scale + column_steps(0, columns as int) + tile_steps(source)
}

/// How far a zoom level has come.
#[derive(Clone, Copy, Debug)]
enum Stage {
    ZoomDir,
    Scale,
    Columns(u32),
    Batches(usize),
    Cut,
    Over,
}

/// The steps of a zoom level that are still to be taken.
#[derive(Debug)]
pub struct ZoomJob {
    columns: u32,
    source: TileSource,
    stage: Stage,
}

impl View for ZoomJob {
    type V = Seq<Step>;

    closed spec fn view(&self) -> Seq<Step> {
        match self.stage {
            Stage::ZoomDir => all_steps(self.columns, self.source),
            Stage::Scale => seq![Step::Scale] + column_steps(0, self.columns as int) + tile_steps(
                self.source,
            ),
            Stage::Columns(first) => column_steps(first as int, self.columns as int) + tile_steps(
                self.source,
            ),
            Stage::Batches(first) => match self.source {
                TileSource::Gpu(batches) => batch_steps(first as int, batches as int),
                TileSource::Cpu => Seq::empty(),
            },
            Stage::Cut => seq![Step::CutTiles],
            Stage::Over => Seq::empty(),
        }
    }
}

impl ZoomJob {
    #[verifier::type_invariant]
    spec fn inv(self) -> bool {
        match self.stage {
            Stage::Scale => self.source == TileSource::Cpu,
            Stage::Columns(first) => first < self.columns,
            Stage::Batches(first) => self.source matches TileSource::Gpu(batches) && first < batches,
            _ => true,
        }
    }

    /// All steps of a zoom level with the given number of columns.
    pub fn new(columns: u32, source: TileSource) -> (job: ZoomJob)
        ensures
            job@ == all_steps(columns, source),
    {
        ZoomJob { columns, source, stage: Stage::ZoomDir }
    }

    /// The step to take now: `None` if there is none left.
    pub fn next_step(&self) -> (step: Option<Step>)
        ensures
            self@.len() == 0 ==> step is None,
            self@.len() > 0 ==> step == Some(self@[0]),
    {
        proof {
            use_type_invariant(self);
        }
        match self.stage {
            Stage::ZoomDir => Some(Step::CreateZoomDir),
            Stage::Scale => Some(Step::Scale),
            Stage::Columns(first) => Some(Step::CreateColumnDir(first)),
            Stage::Batches(first) => Some(Step::RenderBatch(first)),
            Stage::Cut => Some(Step::CutTiles),
            Stage::Over => None,
        }
    }

    /// Notes how the step went: after a success the next one is due, after a failure none is.
    pub fn report(&mut self, success: bool)
        ensures
            success && old(self)@.len() > 0 ==> final(self)@ == old(self)@.drop_first(),
            !success || old(self)@.len() == 0 ==> final(self)@.len() == 0,
    {
        proof {
            use_type_invariant(&*self);
        }
        if !success {
            self.stage = Stage::Over;
            return;
        }
        let columns: u32 = self.columns;
        let tiles: Stage = match self.source {
            TileSource::Gpu(batches) => if batches > 0 {
                Stage::Batches(0)
            } else {
                Stage::Over
            },
            TileSource::Cpu => Stage::Cut,
        };
        let columns_or_tiles: Stage = if columns > 0 {
            Stage::Columns(0)
        } else {
            tiles
        };
        let next: Stage = match self.stage {
            Stage::ZoomDir => match self.source {
                TileSource::Gpu(_) => columns_or_tiles,
                TileSource::Cpu => Stage::Scale,
            },
            Stage::Scale => columns_or_tiles,
            Stage::Columns(first) => if first + 1 < columns {
                Stage::Columns(first + 1)
            } else {
                tiles
            },
            Stage::Batches(first) => match self.source {
                TileSource::Gpu(batches) => if first + 1 < batches {
                    Stage::Batches(first + 1)
                } else {
                    Stage::Over
                },
                TileSource::Cpu => Stage::Over,
            },
            Stage::Cut => Stage::Over,
            Stage::Over => Stage::Over,
        };
        self.stage = next;
        proof {
            if old(self)@.len() > 0 {
                assert(self@ =~= old(self)@.drop_first());
            }
        }
    }
}

} // verus!
