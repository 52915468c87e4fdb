//! Decoder for the compact scenario format, version 2.
//!
//! A scenario is an envelope of twenty header bytes, a JSON document and a payload of runs. Each
//! run says where it starts relative to the run before, how many cells it covers, who owns them
//! and what grows there.

use vstd::prelude::*;
use vstd::slice::slice_subrange;
use crate::json::{field_at, json_contents, parse_json, parsed_json, read_field, Json};
use crate::numbers::{
    N_0_0001, N_0_1, N_0_2, N_0_3, N_0_5, N_0_6, N_0_65, N_0_8, N_0_9, N_180, N_19349663, N_1_1,
    N_1_2, N_1_4, N_1_9, N_2_3, N_2_7, N_360, N_3_1, N_73856093, N_83492791, N_90,
};
use crate::scalar::{real_of, Real};
use crate::worksheet::{
    all_missing, difference, integer, number_at, product, quotient, sum, Operation, Reader, Stop,
    Worksheet,
};

verus! {

pub const VERSION: u8 = 2;

pub const MIN_HEADER_BYTES: usize = 20;

/// Two to the 64th, as a number.
pub const BEYOND_COUNTING_BITS: u64 = 0x43f0_0000_0000_0000;

/// Dimensions and resolution of a rectangular world grid.
#[derive(Clone, Copy, Debug, PartialEq, Eq, Structural)]
pub struct GridSpec {
    pub grid_res: Real,
    pub width: usize,
    pub height: usize,
}

/// An error of the input stream.
#[verifier::external_type_specification]
#[verifier::external_body]
pub struct ExIoError(std::io::Error);

#[derive(Debug)]
pub enum ScenarioError {
    InvalidMagic,
    UnsupportedVersion(u8),
    Truncated,
    InvalidHeader(&'static str),
    InvalidVarint,
    ZeroRunLength,
    EntryCountMismatch,
    Metadata(serde_json::Error),
    InvalidGrid(&'static str),
    GridTooLarge,
    Io(std::io::Error),
}

/// A [`ScenarioError`] without what other libraries say about it.
pub ghost enum ScenarioFault {
    InvalidMagic,
    UnsupportedVersion(u8),
    Truncated,
    InvalidHeader(&'static str),
    InvalidVarint,
    ZeroRunLength,
    EntryCountMismatch,
    Metadata,
    InvalidGrid(&'static str),
    GridTooLarge,
    Io,
}

impl ScenarioError {
    pub open spec fn fault(self) -> ScenarioFault {
        match self {
            ScenarioError::InvalidMagic => ScenarioFault::InvalidMagic,
            ScenarioError::UnsupportedVersion(version) => ScenarioFault::UnsupportedVersion(
                version,
            ),
            ScenarioError::Truncated => ScenarioFault::Truncated,
            ScenarioError::InvalidHeader(reason) => ScenarioFault::InvalidHeader(reason),
            ScenarioError::InvalidVarint => ScenarioFault::InvalidVarint,
            ScenarioError::ZeroRunLength => ScenarioFault::ZeroRunLength,
            ScenarioError::EntryCountMismatch => ScenarioFault::EntryCountMismatch,
            ScenarioError::Metadata(_) => ScenarioFault::Metadata,
            ScenarioError::InvalidGrid(reason) => ScenarioFault::InvalidGrid(reason),
            ScenarioError::GridTooLarge => ScenarioFault::GridTooLarge,
            ScenarioError::Io(_) => ScenarioFault::Io,
        }
    }
}

/// A finite number above zero.
pub open spec fn positive(value: Real) -> bool {
    value.finite() && real_of(0).lt(value)
}

pub fn is_positive(value: Real) -> (answer: bool)
    ensures
        answer == positive(value),
{
    value.is_finite() && Real::zero().less(value)
}

/// How many cells a stretch of the world has.
pub open spec fn cells_along(
    results: Map<Operation, u64>,
    degrees: Real,
    grid_res: Real,
) -> Option<u64> {
    let count = number_at(results, Operation::Ceiling(quotient(results, degrees, grid_res)));
    if !positive(count) || real_of(BEYOND_COUNTING_BITS).lt(count) || results[Operation::Whole(
        count,
    )] > usize::MAX {
        None
    } else {
        Some(results[Operation::Whole(count)])
    }
}

/// A grid over a world of some degrees.
pub open spec fn sized_grid(
    results: Map<Operation, u64>,
    grid_res: Real,
    width_deg: Real,
    height_deg: Real,
) -> Result<GridSpec, ScenarioFault> {
    if !positive(grid_res) {
        Err(ScenarioFault::InvalidGrid("grid resolution must be finite and positive"))
    } else if !positive(width_deg) || !positive(height_deg) {
        Err(ScenarioFault::InvalidGrid("world dimensions must be finite and positive"))
    } else {
        match (
            cells_along(results, width_deg, grid_res),
            cells_along(results, height_deg, grid_res),
        ) {
            (Some(width), Some(height)) => if width * height > usize::MAX {
                Err(ScenarioFault::GridTooLarge)
            } else {
                Ok(GridSpec { grid_res, width: width as usize, height: height as usize })
            },
            _ => Err(ScenarioFault::GridTooLarge),
        }
    }
}

/// Whether a worksheet holds all that counting the cells of a stretch takes.
pub open spec fn cells_supplied(
    results: Map<Operation, u64>,
    degrees: Real,
    grid_res: Real,
) -> bool {
    let ratio = quotient(results, degrees, grid_res);
    let raised = number_at(results, Operation::Ceiling(ratio));
    &&& results.contains_key(Operation::Quotient(degrees, grid_res))
    &&& results.contains_key(Operation::Ceiling(ratio))
    &&& results.contains_key(Operation::Whole(raised))
}

/// Whether a worksheet holds all that sizing a grid takes. Sizes that make no sense take nothing.
pub open spec fn sizing_supplied(
    results: Map<Operation, u64>,
    grid_res: Real,
    width_deg: Real,
    height_deg: Real,
) -> bool {
    positive(grid_res) && positive(width_deg) && positive(height_deg) ==> cells_supplied(
        results,
        width_deg,
        grid_res,
    ) && cells_supplied(results, height_deg, grid_res)
}

fn count_cells(degrees: Real, grid_res: Real, reader: &mut Reader<'_>) -> (count: Option<usize>)
    requires
        old(reader).sound(),
    ensures
        final(reader)@ == old(reader)@,
        final(reader).sound(),
        final(reader).complete() ==> old(reader).complete() && (match count {
            Some(cells) => cells_along(old(reader)@, degrees, grid_res) == Some(cells as u64),
            None => cells_along(old(reader)@, degrees, grid_res) is None,
        }),
        old(reader).complete() && cells_supplied(old(reader)@, degrees, grid_res) ==>
            final(reader).complete(),
{
    let ratio = reader.quotient(degrees, grid_res);
    let raised = reader.gather_number(Operation::Ceiling(ratio));
    let whole: u64 = reader.gather(Operation::Whole(raised));
    if !is_positive(raised) || Real::from_bits(BEYOND_COUNTING_BITS).less(raised) || whole
        > usize::MAX as u64 {
        None
    } else {
        Some(whole as usize)
    }
}

impl GridSpec {
    /// How many cells the grid has, as a mathematical number.
    pub open spec fn area(self) -> int {
        self.width * self.height
    }

    /// Equal as grids: the resolutions are equal as numbers.
    pub open spec fn same(self, other: GridSpec) -> bool {
        self.grid_res.same(other.grid_res) && self.width == other.width && self.height
            == other.height
    }

    /// A grid over the normal world of 360 by 180 degrees.
    pub fn world(grid_res: Real, sheet: &Worksheet) -> (outcome: Result<
        GridSpec,
        Stop<ScenarioError>,
    >)
        ensures
            match outcome {
                Ok(grid) => sized_grid(sheet@, grid_res, real_of(N_360), real_of(N_180)) == Ok::<
                    GridSpec,
                    ScenarioFault,
                >(grid),
                Err(Stop::Failed(error)) => sized_grid(
                    sheet@,
                    grid_res,
                    real_of(N_360),
                    real_of(N_180),
                ) == Err::<GridSpec, ScenarioFault>(error.fault()),
                Err(Stop::Missing(missing)) => {
                    &&& missing@.len() > 0
                    &&& all_missing(missing@, sheet@)
                    &&& !sizing_supplied(sheet@, grid_res, real_of(N_360), real_of(N_180))
                },
            },
    {
        GridSpec::with_world_size(
            grid_res,
            Real::from_bits(N_360),
            Real::from_bits(N_180),
            sheet,
        )
    }

    pub fn with_world_size(
        grid_res: Real,
        width_deg: Real,
        height_deg: Real,
        sheet: &Worksheet,
    ) -> (outcome: Result<GridSpec, Stop<ScenarioError>>)
        ensures
            match outcome {
                Ok(grid) => sized_grid(sheet@, grid_res, width_deg, height_deg) == Ok::<
                    GridSpec,
                    ScenarioFault,
                >(grid),
                Err(Stop::Failed(error)) => sized_grid(sheet@, grid_res, width_deg, height_deg)
                    == Err::<GridSpec, ScenarioFault>(error.fault()),
                Err(Stop::Missing(missing)) => {
                    &&& missing@.len() > 0
                    &&& all_missing(missing@, sheet@)
                    &&& !sizing_supplied(sheet@, grid_res, width_deg, height_deg)
                },
            },
    {
        if !is_positive(grid_res) {
            return Err(
                Stop::Failed(
                    ScenarioError::InvalidGrid("grid resolution must be finite and positive"),
                ),
            );
        }
        if !is_positive(width_deg) || !is_positive(height_deg) {
            return Err(
                Stop::Failed(
                    ScenarioError::InvalidGrid("world dimensions must be finite and positive"),
                ),
            );
        }
        let mut reader = sheet.reader();
        let width = count_cells(width_deg, grid_res, &mut reader);
        let height = count_cells(height_deg, grid_res, &mut reader);
        if !reader.is_complete() {
            return Err(Stop::Missing(reader.into_missing()));
        }
        match (width, height) {
            (Some(columns), Some(rows)) => match columns.checked_mul(rows) {
                Some(_) => Ok(GridSpec { grid_res, width: columns, height: rows }),
                None => Err(Stop::Failed(ScenarioError::GridTooLarge)),
            },
            _ => Err(Stop::Failed(ScenarioError::GridTooLarge)),
        }
    }

    pub fn cell_count(self) -> (count: Result<usize, ScenarioError>)
        ensures
            match count {
                Ok(cells) => cells == self.area(),
                Err(error) => self.area() > usize::MAX && error.fault()
                    == ScenarioFault::GridTooLarge,
            },
    {
        match self.width.checked_mul(self.height) {
            Some(cells) => Ok(cells),
            None => Err(ScenarioError::GridTooLarge),
        }
    }

    pub fn equals(self, other: GridSpec) -> (answer: bool)
        ensures
            answer == self.same(other),
    {
        self.grid_res.equals(other.grid_res) && self.width == other.width && self.height
            == other.height
    }
}

/// What is wrong with a grid to decode into.
pub open spec fn target_fault(target: GridSpec) -> Option<ScenarioFault> {
    if !positive(target.grid_res) {
        Some(ScenarioFault::InvalidGrid("target grid resolution must be finite and positive"))
    } else if target.width == 0 || target.height == 0 {
        Some(ScenarioFault::InvalidGrid("target grid dimensions must be positive"))
    } else if target.area() > usize::MAX {
        Some(ScenarioFault::GridTooLarge)
    } else {
        None
    }
}

pub fn validate_target(target: GridSpec) -> (verdict: Result<(), ScenarioError>)
    ensures
        match verdict {
            Ok(_) => target_fault(target) is None,
            Err(error) => target_fault(target) == Some(error.fault()),
        },
{
    if !is_positive(target.grid_res) {
        return Err(
            ScenarioError::InvalidGrid("target grid resolution must be finite and positive"),
        );
    }
    if target.width == 0 || target.height == 0 {
        return Err(ScenarioError::InvalidGrid("target grid dimensions must be positive"));
    }
    match target.cell_count() {
        Ok(_) => Ok(()),
        Err(error) => Err(error),
    }
}

/// Where the parts of an envelope lie.
#[derive(Clone, Copy, Debug, PartialEq, Eq, Structural)]
pub struct Envelope {
    pub entry_count: u32,
    pub header_bytes: usize,
    pub payload_start: usize,
    pub payload_end: usize,
}

pub open spec fn little_endian(input: Seq<u8>, at: int) -> int {
    input[at] + 0x100 * input[at + 1] + 0x1_0000 * input[at + 2] + 0x100_0000 * input[at + 3]
}

/// The layout of an envelope, or why it is none.
pub open spec fn envelope_of(input: Seq<u8>) -> Result<Envelope, ScenarioFault> {
    let header = input[6] + 0x100 * input[7];
    let payload_start = header + little_endian(input, 8);
    let payload_end = payload_start + little_endian(input, 16);
    if input.len() < MIN_HEADER_BYTES {
        Err(ScenarioFault::Truncated)
    } else if !(input[0] == 0x4d && input[1] == 0x57 && input[2] == 0x53 && input[3] == 0x43) {
        Err(ScenarioFault::InvalidMagic)
    } else if input[4] != VERSION {
        Err(ScenarioFault::UnsupportedVersion(input[4]))
    } else if header < MIN_HEADER_BYTES {
        Err(ScenarioFault::InvalidHeader("header length is smaller than the v2 header"))
    } else if payload_end > input.len() {
        Err(ScenarioFault::Truncated)
    } else {
        Ok(
            Envelope {
                entry_count: little_endian(input, 12) as u32,
                header_bytes: header as usize,
                payload_start: payload_start as usize,
                payload_end: payload_end as usize,
            },
        )
    }
}

fn read_u32_le(input: &[u8], offset: usize) -> (value: u32)
    requires
        offset + 4 <= input@.len(),
    ensures
        value == little_endian(input@, offset as int),
{
    (input[offset] as u32) + 0x100 * (input[offset + 1] as u32) + 0x1_0000 * (input[offset
        + 2] as u32) + 0x100_0000 * (input[offset + 3] as u32)
}

/// Find the parts of an envelope.
pub fn parse_envelope(input: &[u8]) -> (outcome: Result<Envelope, ScenarioError>)
    ensures
        match outcome {
            Ok(envelope) => envelope_of(input@) == Ok::<Envelope, ScenarioFault>(envelope)
                && MIN_HEADER_BYTES <= envelope.header_bytes <= envelope.payload_start
                <= envelope.payload_end <= input@.len(),
            Err(error) => envelope_of(input@) == Err::<Envelope, ScenarioFault>(error.fault()),
        },
{
    if input.len() < MIN_HEADER_BYTES {
        return Err(ScenarioError::Truncated);
    }
    if !(input[0] == 0x4d && input[1] == 0x57 && input[2] == 0x53 && input[3] == 0x43) {
        return Err(ScenarioError::InvalidMagic);
    }
    if input[4] != VERSION {
        return Err(ScenarioError::UnsupportedVersion(input[4]));
    }
    let header_bytes: usize = (input[6] as usize) + 0x100 * (input[7] as usize);
    if header_bytes < MIN_HEADER_BYTES {
        return Err(ScenarioError::InvalidHeader("header length is smaller than the v2 header"));
    }
    let metadata_bytes: usize = read_u32_le(input, 8) as usize;
    let entry_count: u32 = read_u32_le(input, 12);
    let payload_bytes: usize = read_u32_le(input, 16) as usize;
    assert(input@.len() == input.len());
    let payload_start: usize = match header_bytes.checked_add(metadata_bytes) {
        Some(start) => start,
        None => {
            return Err(ScenarioError::Truncated);
        },
    };
    let payload_end: usize = match payload_start.checked_add(payload_bytes) {
        Some(end) => end,
        None => {
            return Err(ScenarioError::Truncated);
        },
    };
    if payload_end > input.len() {
        return Err(ScenarioError::Truncated);
    }
    Ok(Envelope { entry_count, header_bytes, payload_start, payload_end })
}

/// A number in groups of seven bits, the lowest first, each group but the last marked by its high
/// bit; at most five groups, and at most 32 bits. The value, and where the next number starts.
pub open spec fn varint_at(input: Seq<u8>, at: int, group: nat) -> Option<(nat, int)>
    decreases 5 - group,
{
    if group >= 5 || at < 0 || at >= input.len() {
        None
    } else {
        let byte = input[at];
        if group == 4 && byte >= 16 {
            None
        } else if byte < 128 {
            Some((byte as nat, at + 1))
        } else {
            match varint_at(input, at + 1, group + 1) {
                Some((rest, next)) => Some(((byte - 128 + 128 * rest) as nat, next)),
                None => None,
            }
        }
    }
}

/// What the groups from one on can amount to.
pub open spec fn varint_limit(group: nat) -> int {
    if group == 0 {
        0x1_0000_0000
    } else if group == 1 {
        0x200_0000
    } else if group == 2 {
        0x4_0000
    } else if group == 3 {
        0x800
    } else {
        0x10
    }
}

fn read_groups(input: &[u8], at: usize, group: u32) -> (answer: Option<(u32, usize)>)
    requires
        group <= 5,
    ensures
        match answer {
            Some((value, next)) => varint_at(input@, at as int, group as nat) == Some(
                (value as nat, next as int),
            ) && value < varint_limit(group as nat) && at < next <= input@.len(),
            None => varint_at(input@, at as int, group as nat) is None,
        },
    decreases 5 - group,
{
    if group >= 5 || at >= input.len() {
        return None;
    }
    let byte: u8 = input[at];
    if group == 4 && byte >= 16 {
        None
    } else if byte < 128 {
        Some((byte as u32, at + 1))
    } else {
        match read_groups(input, at + 1, group + 1) {
            Some((rest, next)) => Some(((byte as u32) - 128 + 128 * rest, next)),
            None => None,
        }
    }
}

pub fn read_var_u32(input: &[u8], cursor: usize) -> (outcome: Result<(u32, usize), ScenarioError>)
    ensures
        match outcome {
            Ok((value, next)) => varint_at(input@, cursor as int, 0) == Some(
                (value as nat, next as int),
            ) && cursor < next <= input@.len(),
            Err(error) => varint_at(input@, cursor as int, 0) is None && error.fault()
                == ScenarioFault::InvalidVarint,
        },
{
    match read_groups(input, cursor, 0) {
        Some((value, next)) => Ok((value, next)),
        None => Err(ScenarioError::InvalidVarint),
    }
}

/// Numbers on both sides of zero take turns: 0, -1, 1, -2, 2.
pub open spec fn unfolded(value: nat) -> int {
    if value % 2 == 0 {
        value as int / 2
    } else {
        -(value as int / 2) - 1
    }
}

pub fn read_var_i32(input: &[u8], cursor: usize) -> (outcome: Result<(i32, usize), ScenarioError>)
    ensures
        match outcome {
            Ok((value, next)) => (varint_at(input@, cursor as int, 0) matches Some((folded, end))
                && value == unfolded(folded) && next == end) && cursor < next <= input@.len(),
            Err(error) => varint_at(input@, cursor as int, 0) is None && error.fault()
                == ScenarioFault::InvalidVarint,
        },
{
    match read_var_u32(input, cursor) {
        Ok((folded, next)) => {
            let half: i32 = (folded / 2) as i32;
            if folded % 2 == 0 {
                Ok((half, next))
            } else {
                Ok((-half - 1, next))
            }
        },
        Err(error) => Err(error),
    }
}

/// A stretch of cells with one owner.
#[derive(Clone, Copy, Debug, PartialEq, Eq, Structural)]
pub struct Run {
    pub start: i64,
    pub length: u32,
    pub owner: u16,
    pub biome: u8,
}

/// The run at a place of the payload, and where the next one starts. Owners and biomes keep
/// their lowest bits.
pub open spec fn run_at(input: Seq<u8>, at: int, previous: int) -> Result<
    (Run, int),
    ScenarioFault,
> {
    match varint_at(input, at, 0) {
        None => Err(ScenarioFault::InvalidVarint),
        Some((folded, after_start)) => {
            let start = previous + unfolded(folded);
            if start < i64::MIN || start > i64::MAX {
                Err(ScenarioFault::InvalidVarint)
            } else {
                match varint_at(input, after_start, 0) {
                    None => Err(ScenarioFault::InvalidVarint),
                    Some((length, after_length)) => match varint_at(input, after_length, 0) {
                        None => Err(ScenarioFault::InvalidVarint),
                        Some((owner, after_owner)) => match varint_at(input, after_owner, 0) {
                            None => Err(ScenarioFault::InvalidVarint),
                            Some((biome, next)) => if length == 0 {
                                Err(ScenarioFault::ZeroRunLength)
                            } else {
                                Ok(
                                    (
                                        Run {
                                            start: start as i64,
                                            length: length as u32,
                                            owner: (owner % 0x1_0000) as u16,
                                            biome: (biome % 0x100) as u8,
                                        },
                                        next,
                                    ),
                                )
                            },
                        },
                    },
                }
            }
        },
    }
}

fn read_run(input: &[u8], cursor: usize, previous: i64) -> (outcome: Result<
    (Run, usize),
    ScenarioError,
>)
    ensures
        match outcome {
            Ok((run, next)) => run_at(input@, cursor as int, previous as int) == Ok::<
                (Run, int),
                ScenarioFault,
            >((run, next as int)) && cursor < next <= input@.len(),
            Err(error) => run_at(input@, cursor as int, previous as int) == Err::<
                (Run, int),
                ScenarioFault,
            >(error.fault()),
        },
{
    let (delta, after_start) = match read_var_i32(input, cursor) {
        Ok(pair) => pair,
        Err(error) => {
            return Err(error);
        },
    };
    let start: i64 = match previous.checked_add(delta as i64) {
        Some(start) => start,
        None => {
            return Err(ScenarioError::InvalidVarint);
        },
    };
    let (length, after_length) = match read_var_u32(input, after_start) {
        Ok(pair) => pair,
        Err(error) => {
            return Err(error);
        },
    };
    let (owner, after_owner) = match read_var_u32(input, after_length) {
        Ok(pair) => pair,
        Err(error) => {
            return Err(error);
        },
    };
    let (biome, next) = match read_var_u32(input, after_owner) {
        Ok(pair) => pair,
        Err(error) => {
            return Err(error);
        },
    };
    if length == 0 {
        return Err(ScenarioError::ZeroRunLength);
    }
    let run = Run {
        start,
        length,
        owner: (owner % 0x1_0000) as u16,
        biome: (biome % 0x100) as u8,
    };
    Ok((run, next))
}

proof fn lemma_varint_advances(input: Seq<u8>, at: int, group: nat)
    ensures
        varint_at(input, at, group) matches Some((value, next)) ==> at < next <= input.len()
            && value < varint_limit(group),
    decreases 5 - group,
{
    if group < 5 && 0 <= at < input.len() {
        lemma_varint_advances(input, at + 1, group + 1);
    }
}

proof fn lemma_run_advances(input: Seq<u8>, at: int, previous: int)
    ensures
        run_at(input, at, previous) matches Ok((run, next)) ==> at < next <= input.len(),
{
    lemma_varint_advances(input, at, 0);
    if let Some((_, after_start)) = varint_at(input, at, 0) {
        lemma_varint_advances(input, after_start, 0);
        if let Some((_, after_length)) = varint_at(input, after_start, 0) {
            lemma_varint_advances(input, after_length, 0);
            if let Some((_, after_owner)) = varint_at(input, after_length, 0) {
                lemma_varint_advances(input, after_owner, 0);
            }
        }
    }
}

/// The runs from a place of the payload on.
pub open spec fn runs_from(
    input: Seq<u8>,
    at: int,
    end: int,
    previous: int,
    decoded: int,
    entry_count: int,
) -> Result<Seq<Run>, ScenarioFault>
    decreases input.len() - at,
    via runs_advance
{
    if at >= end {
        if at == end && decoded == entry_count {
            Ok(Seq::empty())
        } else {
            Err(ScenarioFault::EntryCountMismatch)
        }
    } else {
        match run_at(input, at, previous) {
            Err(fault) => Err(fault),
            Ok((run, next)) => if decoded + run.length > u64::MAX {
                Err(ScenarioFault::EntryCountMismatch)
            } else {
                match runs_from(
                    input,
                    next,
                    end,
                    run.start as int,
                    decoded + run.length,
                    entry_count,
                ) {
                    Ok(rest) => Ok(seq![run] + rest),
                    Err(fault) => Err(fault),
                }
            },
        }
    }
}

#[via_fn]
proof fn runs_advance(
    input: Seq<u8>,
    at: int,
    end: int,
    previous: int,
    decoded: int,
    entry_count: int,
) {
    lemma_run_advances(input, at, previous);
}

/// A range of rows or columns, both ends included.
#[derive(Clone, Copy, Debug, PartialEq, Eq, Structural)]
pub struct Span {
    pub start: i64,
    pub end: i64,
}

/// An integer in two's complement.
pub open spec fn signed(bits: u64) -> int {
    if bits < 0x8000_0000_0000_0000 {
        bits as int
    } else {
        bits - 0x1_0000_0000_0000_0000
    }
}

fn to_signed(bits: u64) -> (value: i64)
    ensures
        value == signed(bits),
{
    if bits < 0x8000_0000_0000_0000 {
        bits as i64
    } else {
        ((bits as i128) - 0x1_0000_0000_0000_0000) as i64
    }
}

/// The rows or columns of the target that one row or column of the source lies over. `shift` is
/// how far the grid begins from zero degrees.
pub open spec fn span_over(
    results: Map<Operation, u64>,
    position: u64,
    source_res: Real,
    target_res: Real,
    shift: Real,
) -> Span {
    let base = difference(
        results,
        product(results, integer(results, position), source_res),
        shift,
    );
    let first = quotient(results, sum(results, base, shift), target_res);
    let last = quotient(
        results,
        difference(
            results,
            sum(results, sum(results, base, source_res), shift),
            real_of(N_0_0001),
        ),
        target_res,
    );
    Span {
        start: signed(
            results[Operation::Signed(number_at(results, Operation::Floor(first)))],
        ) as i64,
        end: signed(results[Operation::Signed(number_at(results, Operation::Floor(last)))]) as i64,
    }
}

pub open spec fn spans_over(
    results: Map<Operation, u64>,
    count: usize,
    source_res: Real,
    target_res: Real,
    shift: Real,
) -> Seq<Span> {
    Seq::new(
        count as nat,
        |i: int| span_over(results, i as u64, source_res, target_res, shift),
    )
}

/// Whether a worksheet holds all that one span takes.
pub open spec fn span_supplied(
    results: Map<Operation, u64>,
    position: u64,
    source_res: Real,
    target_res: Real,
    shift: Real,
) -> bool {
    let place = integer(results, position);
    let offset = product(results, place, source_res);
    let base = difference(results, offset, shift);
    let near = sum(results, base, shift);
    let first = quotient(results, near, target_res);
    let beyond = sum(results, base, source_res);
    let far = sum(results, beyond, shift);
    let inside = difference(results, far, real_of(N_0_0001));
    let last = quotient(results, inside, target_res);
    let first_floor = number_at(results, Operation::Floor(first));
    let last_floor = number_at(results, Operation::Floor(last));
    &&& results.contains_key(Operation::Integer(position))
    &&& results.contains_key(Operation::Product(place, source_res))
    &&& results.contains_key(Operation::Difference(offset, shift))
    &&& results.contains_key(Operation::Sum(base, shift))
    &&& results.contains_key(Operation::Quotient(near, target_res))
    &&& results.contains_key(Operation::Sum(base, source_res))
    &&& results.contains_key(Operation::Sum(beyond, shift))
    &&& results.contains_key(Operation::Difference(far, real_of(N_0_0001)))
    &&& results.contains_key(Operation::Quotient(inside, target_res))
    &&& results.contains_key(Operation::Floor(first))
    &&& results.contains_key(Operation::Floor(last))
    &&& results.contains_key(Operation::Signed(first_floor))
    &&& results.contains_key(Operation::Signed(last_floor))
}

/// Whether a worksheet holds all that the spans of a grid take.
pub open spec fn spans_supplied(
    results: Map<Operation, u64>,
    count: usize,
    source_res: Real,
    target_res: Real,
    shift: Real,
) -> bool {
    forall|position: u64|
        position < count ==> #[trigger] span_supplied(
            results,
            position,
            source_res,
            target_res,
            shift,
        )
}

fn compute_spans(
    count: usize,
    source_res: Real,
    target_res: Real,
    shift: Real,
    reader: &mut Reader<'_>,
) -> (spans: Vec<Span>)
    requires
        old(reader).sound(),
    ensures
        final(reader)@ == old(reader)@,
        final(reader).sound(),
        spans@.len() == count,
        final(reader).complete() ==> old(reader).complete() && spans@ == spans_over(
            old(reader)@,
            count,
            source_res,
            target_res,
            shift,
        ),
        old(reader).complete() && spans_supplied(
            old(reader)@,
            count,
            source_res,
            target_res,
            shift,
        ) ==> final(reader).complete(),
{
    let ghost results = reader@;
    let ghost untouched = reader.complete();
    let mut spans: Vec<Span> = Vec::new();
    let mut position: usize = 0;
    while position < count
        invariant
            position <= count,
            reader@ == results,
            reader.sound(),
            spans@.len() == position,
            reader.complete() ==> untouched && forall|i: int|
                0 <= i < position ==> #[trigger] spans@[i] == span_over(
                    results,
                    i as u64,
                    source_res,
                    target_res,
                    shift,
                ),
            untouched && spans_supplied(results, count, source_res, target_res, shift)
                ==> reader.complete(),
        decreases count - position,
    {
        assert(spans_supplied(results, count, source_res, target_res, shift) ==> span_supplied(
            results,
            position as u64,
            source_res,
            target_res,
            shift,
        ));
        let place = reader.integer(position as u64);
        let offset = reader.product(place, source_res);
        let base = reader.difference(offset, shift);
        let near = reader.sum(base, shift);
        let first = reader.quotient(near, target_res);
        let beyond = reader.sum(base, source_res);
        let far = reader.sum(beyond, shift);
        let inside = reader.difference(far, Real::from_bits(N_0_0001));
        let last = reader.quotient(inside, target_res);
        let first_floor = reader.gather_number(Operation::Floor(first));
        let last_floor = reader.gather_number(Operation::Floor(last));
        let start: i64 = to_signed(reader.gather(Operation::Signed(first_floor)));
        let end: i64 = to_signed(reader.gather(Operation::Signed(last_floor)));
        spans.push(Span { start, end });
        position = position + 1;
    }
    proof {
        if reader.complete() {
            assert(spans@ =~= spans_over(results, count, source_res, target_res, shift));
        }
    }
    spans
}

/// The dense maps of a scenario.
#[derive(Debug)]
pub struct WorldMaps {
    pub world_control: Vec<u16>,
    pub de_jure: Vec<u16>,
    pub land: Vec<u8>,
    pub biome: Vec<u8>,
}

/// What [`WorldMaps`] hold.
pub ghost struct Maps {
    pub world_control: Seq<u16>,
    pub de_jure: Seq<u16>,
    pub land: Seq<u8>,
    pub biome: Seq<u8>,
}

impl View for WorldMaps {
    type V = Maps;

    open spec fn view(&self) -> Maps {
        Maps {
            world_control: self.world_control@,
            de_jure: self.de_jure@,
            land: self.land@,
            biome: self.biome@,
        }
    }
}

impl Maps {
    /// All maps cover the same number of cells.
    pub open spec fn over(self, cells: int) -> bool {
        &&& self.world_control.len() == cells
        &&& self.de_jure.len() == cells
        &&& self.land.len() == cells
        &&& self.biome.len() == cells
    }
}

/// No land anywhere.
pub open spec fn open_sea(cells: nat) -> Maps {
    Maps {
        world_control: Seq::new(cells, |i: int| 0u16),
        de_jure: Seq::new(cells, |i: int| 0u16),
        land: Seq::new(cells, |i: int| 0u8),
        biome: Seq::new(cells, |i: int| 0u8),
    }
}

/// The maps after some cells became land of an owner; the biome is noted where it is known.
pub open spec fn painted(
    before: Maps,
    hit: spec_fn(int) -> bool,
    owner: u16,
    biome: Option<u8>,
) -> Maps {
    Maps {
        world_control: Seq::new(
            before.world_control.len(),
            |cell: int|
                if hit(cell) {
                    owner
                } else {
                    before.world_control[cell]
                },
        ),
        de_jure: Seq::new(
            before.de_jure.len(),
            |cell: int|
                if hit(cell) {
                    owner
                } else {
                    before.de_jure[cell]
                },
        ),
        land: Seq::new(
            before.land.len(),
            |cell: int|
                if hit(cell) {
                    1
                } else {
                    before.land[cell]
                },
        ),
        biome: Seq::new(
            before.biome.len(),
            |cell: int|
                if hit(cell) && biome is Some {
                    biome->Some_0
                } else {
                    before.biome[cell]
                },
        ),
    }
}

proof fn lemma_painted_agree(
    before: Maps,
    first: spec_fn(int) -> bool,
    second: spec_fn(int) -> bool,
    owner: u16,
    biome: Option<u8>,
    cells: int,
)
    requires
        before.over(cells),
        forall|cell: int| 0 <= cell < cells ==> #[trigger] first(cell) == second(cell),
    ensures
        painted(before, first, owner, biome) == painted(before, second, owner, biome),
{
    let a = painted(before, first, owner, biome);
    let b = painted(before, second, owner, biome);
    assert(a.world_control =~= b.world_control);
    assert(a.de_jure =~= b.de_jure);
    assert(a.land =~= b.land);
    assert(a.biome =~= b.biome);
}

proof fn lemma_painted_nothing(
    before: Maps,
    hit: spec_fn(int) -> bool,
    owner: u16,
    biome: Option<u8>,
    cells: int,
)
    requires
        before.over(cells),
        forall|cell: int| 0 <= cell < cells ==> !#[trigger] hit(cell),
    ensures
        painted(before, hit, owner, biome) == before,
{
    let a = painted(before, hit, owner, biome);
    assert(a.world_control =~= before.world_control);
    assert(a.de_jure =~= before.de_jure);
    assert(a.land =~= before.land);
    assert(a.biome =~= before.biome);
}

proof fn lemma_painted_union(
    before: Maps,
    first: spec_fn(int) -> bool,
    second: spec_fn(int) -> bool,
    both: spec_fn(int) -> bool,
    owner: u16,
    biome: Option<u8>,
    cells: int,
)
    requires
        before.over(cells),
        forall|cell: int|
            0 <= cell < cells ==> #[trigger] both(cell) == (first(cell) || second(cell)),
    ensures
        painted(painted(before, first, owner, biome), second, owner, biome) == painted(
            before,
            both,
            owner,
            biome,
        ),
{
    let a = painted(painted(before, first, owner, biome), second, owner, biome);
    let b = painted(before, both, owner, biome);
    assert(a.world_control =~= b.world_control) by {
        assert forall|cell: int| 0 <= cell < cells implies a.world_control[cell]
            == b.world_control[cell] by {
            assert(both(cell) == (first(cell) || second(cell)));
        }
    }
    assert(a.de_jure =~= b.de_jure) by {
        assert forall|cell: int| 0 <= cell < cells implies a.de_jure[cell] == b.de_jure[cell] by {
            assert(both(cell) == (first(cell) || second(cell)));
        }
    }
    assert(a.land =~= b.land) by {
        assert forall|cell: int| 0 <= cell < cells implies a.land[cell] == b.land[cell] by {
            assert(both(cell) == (first(cell) || second(cell)));
        }
    }
    assert(a.biome =~= b.biome) by {
        assert forall|cell: int| 0 <= cell < cells implies a.biome[cell] == b.biome[cell] by {
            assert(both(cell) == (first(cell) || second(cell)));
        }
    }
}

/// How source cells lie over target cells.
pub ghost struct Plan {
    pub source: GridSpec,
    pub target: GridSpec,
    pub columns: Seq<Span>,
    pub rows: Seq<Span>,
}

pub open spec fn within(span: Span, position: int) -> bool {
    span.start <= position <= span.end
}

/// Whether a source cell lies over a target cell.
pub open spec fn lies_over(plan: Plan, index: int, cell: int) -> bool {
    &&& 0 <= index < plan.source.area()
    &&& within(plan.columns[index % plan.source.width as int], cell % plan.target.width as int)
    &&& within(plan.rows[index / plan.source.width as int], cell / plan.target.width as int)
}

/// The target cells under a source cell.
pub open spec fn under(plan: Plan, index: int) -> spec_fn(int) -> bool {
    |cell: int| lies_over(plan, index, cell)
}

/// The target cells under the source cells of a range.
pub open spec fn under_range(plan: Plan, start: int, end: int) -> spec_fn(int) -> bool {
    |cell: int| exists|index: int| start <= index < end && #[trigger] lies_over(plan, index, cell)
}

/// The cells of a range.
pub open spec fn in_range(start: int, end: int) -> spec_fn(int) -> bool {
    |cell: int| start <= cell < end
}

/// The maps after one run.
pub open spec fn after_run(before: Maps, run: Run, plan: Plan) -> Maps {
    if plan.source.same(plan.target) {
        painted(
            before,
            in_range(run.start as int, run.start + run.length),
            run.owner,
            Some(run.biome),
        )
    } else {
        painted(
            before,
            under_range(plan, run.start as int, run.start + run.length),
            run.owner,
            None,
        )
    }
}

/// The maps after the first runs: the last write to a cell counts.
pub open spec fn after_runs(before: Maps, runs: Seq<Run>, plan: Plan, count: nat) -> Maps
    decreases count,
{
    if count == 0 {
        before
    } else {
        after_run(after_runs(before, runs, plan, (count - 1) as nat), runs[count - 1], plan)
    }
}

fn paint_cell(maps: &mut WorldMaps, cell: usize, owner: u16, biome: Option<u8>, cells: Ghost<int>)
    requires
        old(maps)@.over(cells@),
        cell < cells@,
    ensures
        final(maps)@.over(cells@),
        final(maps)@ == painted(
            old(maps)@,
            in_range(cell as int, cell + 1),
            owner,
            biome,
        ),
{
    let ghost before = maps@;
    maps.world_control[cell] = owner;
    maps.de_jure[cell] = owner;
    maps.land[cell] = 1;
    if let Some(kind) = biome {
        maps.biome[cell] = kind;
    }
    proof {
        let after = painted(before, in_range(cell as int, cell + 1), owner, biome);
        assert(maps@.world_control =~= after.world_control);
        assert(maps@.de_jure =~= after.de_jure);
        assert(maps@.land =~= after.land);
        assert(maps@.biome =~= after.biome);
    }
}

/// The target cells under a source cell in the rows above one, and in it left of a column.
pub open spec fn under_until(plan: Plan, index: int, row: int, column: int) -> spec_fn(
    int,
) -> bool {
    |cell: int|
        {
            &&& lies_over(plan, index, cell)
            &&& cell / (plan.target.width as int) <= row
            &&& cell / (plan.target.width as int) == row ==> cell % (plan.target.width as int)
                < column
        }
}

proof fn lemma_cell(row: int, column: int, width: int)
    requires
        0 <= column < width,
        0 <= row,
    ensures
        (row * width + column) / width == row,
        (row * width + column) % width == column,
{
    vstd::arithmetic::div_mod::lemma_fundamental_div_mod_converse(
        row * width + column,
        width,
        row,
        column,
    );
}

proof fn lemma_cell_parts(cell: int, width: int, height: int)
    requires
        0 <= cell < width * height,
        width > 0,
    ensures
        cell == (cell / width) * width + cell % width,
        0 <= cell / width < height,
        0 <= cell % width < width,
{
    vstd::arithmetic::div_mod::lemma_fundamental_div_mod(cell, width);
    assert(0 <= cell % width < width);
    assert(width * (cell / width) == (cell / width) * width) by (nonlinear_arith);
    assert(cell / width >= 0) by (nonlinear_arith)
        requires
            cell >= 0,
            width > 0,
    ;
    assert(cell / width < height) by (nonlinear_arith)
        requires
            cell < width * height,
            width > 0,
            cell == (cell / width) * width + cell % width,
            0 <= cell % width,
    ;
}

fn clip(value: i128, limit: usize) -> (clipped: usize)
    ensures
        clipped == (if value < 0 {
            0
        } else if value > limit {
            limit as int
        } else {
            value as int
        }),
{
    if value < 0 {
        0
    } else if value > limit as i128 {
        limit
    } else {
        value as usize
    }
}

fn paint_under(
    maps: &mut WorldMaps,
    index: usize,
    owner: u16,
    source: GridSpec,
    target: GridSpec,
    columns: &Vec<Span>,
    rows: &Vec<Span>,
    plan: Ghost<Plan>,
)
    requires
        plan@ == (Plan { source, target, columns: columns@, rows: rows@ }),
        0 < source.width,
        index < source.area(),
        columns@.len() == source.width,
        rows@.len() == source.height,
        0 < target.width,
        0 < target.height,
        target.area() <= usize::MAX,
        old(maps)@.over(target.area()),
    ensures
        final(maps)@.over(target.area()),
        final(maps)@ == painted(old(maps)@, under(plan@, index as int), owner, None),
{
    let ghost before = maps@;
    let ghost cells = target.area();
    proof {
        lemma_cell_parts(index as int, source.width as int, source.height as int);
        assert(source.width * source.height == source.area());
    }
    let column_span = columns[index % source.width];
    let row_span = rows[index / source.width];
    let first_row: usize = clip(row_span.start as i128, target.height);
    let last_row: usize = clip(row_span.end as i128 + 1, target.height);
    let first_column: usize = clip(column_span.start as i128, target.width);
    let last_column: usize = clip(column_span.end as i128 + 1, target.width);
    let mut row: usize = first_row;
    proof {
        assert forall|cell: int| 0 <= cell < cells implies !#[trigger] under_until(
            plan@,
            index as int,
            row as int,
            0,
        )(cell) by {
            lemma_cell_parts(cell, target.width as int, target.height as int);
        }
        lemma_painted_nothing(
            before,
            under_until(plan@, index as int, row as int, 0),
            owner,
            None,
            cells,
        );
    }
    while row < last_row
        invariant
            first_row <= row,
            last_row <= target.height,
            plan@ == (Plan { source, target, columns: columns@, rows: rows@ }),
            0 < source.width,
            index < source.area(),
            column_span == columns@[index as int % source.width as int],
            row_span == rows@[index as int / source.width as int],
            0 < target.width,
            cells == target.area(),
            cells == target.width * target.height,
            cells <= usize::MAX,
            first_row == (if row_span.start < 0 {
                0
            } else if row_span.start > target.height {
                target.height as int
            } else {
                row_span.start as int
            }),
            forall|r: int| first_row <= r < last_row ==> #[trigger] within(row_span, r),
            forall|r: int|
                0 <= r < target.height && #[trigger] within(row_span, r) ==> first_row <= r
                    < last_row,
            forall|c: int|
                0 <= c < target.width ==> (#[trigger] within(column_span, c) <==> first_column <= c
                    < last_column),
            last_column <= target.width,
            before.over(cells),
            maps@.over(cells),
            maps@ == painted(
                before,
                under_until(plan@, index as int, row as int, 0),
                owner,
                None,
            ),
        decreases last_row - row,
    {
        let mut column: usize = first_column;
        proof {
            assert(within(row_span, row as int));
            assert forall|cell: int| 0 <= cell < cells implies #[trigger] under_until(
                plan@,
                index as int,
                row as int,
                0,
            )(cell) == under_until(plan@, index as int, row as int, column as int)(cell) by {
                lemma_cell_parts(cell, target.width as int, target.height as int);
            }
            lemma_painted_agree(
                before,
                under_until(plan@, index as int, row as int, 0),
                under_until(plan@, index as int, row as int, column as int),
                owner,
                None,
                cells,
            );
        }
        while column < last_column
            invariant
                first_column <= column,
                last_column <= target.width,
                0 <= row < target.height,
                plan@ == (Plan { source, target, columns: columns@, rows: rows@ }),
                0 < source.width,
                index < source.area(),
                column_span == columns@[index as int % source.width as int],
                row_span == rows@[index as int / source.width as int],
                0 < target.width,
                cells == target.width * target.height,
                cells <= usize::MAX,
                within(row_span, row as int),
                forall|c: int|
                    0 <= c < target.width ==> (#[trigger] within(column_span, c) <==> first_column
                        <= c < last_column),
                before.over(cells),
                maps@.over(cells),
                maps@ == painted(
                    before,
                    under_until(plan@, index as int, row as int, column as int),
                    owner,
                    None,
                ),
            decreases last_column - column,
        {
            proof {
                assert(row * target.width + target.width <= target.height * target.width)
                    by (nonlinear_arith)
                    requires
                        row + 1 <= target.height,
                        target.width >= 0,
                ;
                assert(target.height * target.width == cells) by (nonlinear_arith)
                    requires
                        cells == target.width * target.height,
                ;
                assert(0 <= row * target.width) by (nonlinear_arith)
                    requires
                        row >= 0,
                        target.width >= 0,
                ;
            }
            let cell: usize = row * target.width + column;
            paint_cell(maps, cell, owner, None, Ghost(cells));
            proof {
                lemma_cell(row as int, column as int, target.width as int);
                assert(within(column_span, column as int));
                assert(lies_over(plan@, index as int, cell as int));
                let first = under_until(plan@, index as int, row as int, column as int);
                let second = in_range(cell as int, cell + 1);
                let both = under_until(plan@, index as int, row as int, column + 1);
                assert forall|other: int| 0 <= other < cells implies #[trigger] both(other) == (
                first(other) || second(other)) by {
                    lemma_cell_parts(other, target.width as int, target.height as int);
                }
                lemma_painted_union(before, first, second, both, owner, None, cells);
            }
            column = column + 1;
        }
        proof {
            let first = under_until(plan@, index as int, row as int, column as int);
            let second = under_until(plan@, index as int, row + 1, 0);
            assert forall|cell: int| 0 <= cell < cells implies #[trigger] first(cell) == second(
                cell,
            ) by {
                lemma_cell_parts(cell, target.width as int, target.height as int);
                let place = cell % target.width as int;
                if lies_over(plan@, index as int, cell) {
                    assert(within(column_span, place));
                }
            }
            lemma_painted_agree(before, first, second, owner, None, cells);
        }
        row = row + 1;
    }
    proof {
        let first = under_until(plan@, index as int, row as int, 0);
        let second = under(plan@, index as int);
        assert forall|cell: int| 0 <= cell < cells implies #[trigger] first(cell) == second(
            cell,
        ) by {
            lemma_cell_parts(cell, target.width as int, target.height as int);
            let place = cell / target.width as int;
            if lies_over(plan@, index as int, cell) {
                assert(within(row_span, place));
            }
        }
        lemma_painted_agree(before, first, second, owner, None, cells);
    }
}

/// Paint one run.
fn paint_run(
    maps: &mut WorldMaps,
    run: Run,
    source: GridSpec,
    target: GridSpec,
    same: bool,
    columns: &Vec<Span>,
    rows: &Vec<Span>,
    plan: Ghost<Plan>,
)
    requires
        plan@ == (Plan { source, target, columns: columns@, rows: rows@ }),
        same == source.same(target),
        source.area() <= usize::MAX,
        !same ==> columns@.len() == source.width && rows@.len() == source.height,
        0 < target.width,
        0 < target.height,
        target.area() <= usize::MAX,
        old(maps)@.over(target.area()),
    ensures
        final(maps)@.over(target.area()),
        final(maps)@ == after_run(old(maps)@, run, plan@),
{
    let ghost before = maps@;
    let ghost cells = target.area();
    let ghost start = run.start as int;
    let ghost end = run.start + run.length;
    proof {
        assert(0 <= source.area()) by (nonlinear_arith)
            requires
                source.area() == source.width * source.height,
                source.width >= 0,
                source.height >= 0,
        ;
        assert(source.width * source.height == source.area());
    }
    let source_cells: usize = source.width * source.height;
    let mut index: usize = clip(run.start as i128, source_cells);
    let limit: usize = clip(run.start as i128 + run.length as i128, source_cells);
    let ghost first_index = index as int;
    if same {
        proof {
            lemma_painted_nothing(
                before,
                in_range(first_index, first_index),
                run.owner,
                Some(run.biome),
                cells,
            );
        }
        while index < limit
            invariant
                first_index <= index <= limit,
                limit <= source_cells,
                source_cells == cells,
                before.over(cells),
                maps@.over(cells),
                maps@ == painted(
                    before,
                    in_range(first_index, index as int),
                    run.owner,
                    Some(run.biome),
                ),
            decreases limit - index,
        {
            paint_cell(maps, index, run.owner, Some(run.biome), Ghost(cells));
            proof {
                lemma_painted_union(
                    before,
                    in_range(first_index, index as int),
                    in_range(index as int, index + 1),
                    in_range(first_index, index + 1),
                    run.owner,
                    Some(run.biome),
                    cells,
                );
            }
            index = index + 1;
        }
        proof {
            lemma_painted_agree(
                before,
                in_range(first_index, index as int),
                in_range(start, end),
                run.owner,
                Some(run.biome),
                cells,
            );
        }
    } else {
        proof {
            lemma_painted_nothing(
                before,
                under_range(plan@, start, index as int),
                run.owner,
                None,
                cells,
            );
        }
        while index < limit
            invariant
                first_index <= index <= limit,
                start <= first_index || limit <= first_index,
                limit <= source_cells,
                source_cells == source.area(),
                plan@ == (Plan { source, target, columns: columns@, rows: rows@ }),
                columns@.len() == source.width,
                rows@.len() == source.height,
                0 < target.width,
                0 < target.height,
                cells == target.area(),
                cells <= usize::MAX,
                before.over(cells),
                maps@.over(cells),
                maps@ == painted(
                    before,
                    under_range(plan@, start, index as int),
                    run.owner,
                    None,
                ),
            decreases limit - index,
        {
            proof {
                assert(source.width > 0) by (nonlinear_arith)
                    requires
                        index >= 0,
                        index < source.width * source.height,
                        source.width >= 0,
                ;
            }
            paint_under(maps, index, run.owner, source, target, columns, rows, plan);
            proof {
                let first = under_range(plan@, start, index as int);
                let second = under(plan@, index as int);
                let both = under_range(plan@, start, index + 1);
                assert forall|cell: int| 0 <= cell < cells implies #[trigger] both(cell) == (first(
                    cell,
                ) || second(cell)) by {
                    if both(cell) {
                        let k = choose|k: int|
                            start <= k < index + 1 && #[trigger] lies_over(plan@, k, cell);
                        if k < index {
                            assert(lies_over(plan@, k, cell));
                        }
                    }
                    if first(cell) {
                        let k = choose|k: int|
                            start <= k < index && #[trigger] lies_over(plan@, k, cell);
                        assert(start <= k < index + 1);
                    }
                    if second(cell) {
                        assert(lies_over(plan@, index as int, cell));
                    }
                }
                lemma_painted_union(before, first, second, both, run.owner, None, cells);
            }
            index = index + 1;
        }
        proof {
            let first = under_range(plan@, start, index as int);
            let second = under_range(plan@, start, end);
            assert forall|cell: int| 0 <= cell < cells implies #[trigger] first(cell) == second(
                cell,
            ) by {
                if first(cell) {
                    let k = choose|k: int|
                        start <= k < index && #[trigger] lies_over(plan@, k, cell);
                    assert(start <= k < end);
                }
                if second(cell) {
                    let k = choose|k: int| start <= k < end && #[trigger] lies_over(plan@, k, cell);
                    assert(start <= k < index);
                }
            }
            lemma_painted_agree(before, first, second, run.owner, None, cells);
        }
    }
}

/// How the source grid lies over the target grid. A grid lies over itself cell by cell.
pub open spec fn plan_for(
    results: Map<Operation, u64>,
    source: GridSpec,
    target: GridSpec,
) -> Plan {
    if source.same(target) {
        Plan { source, target, columns: Seq::empty(), rows: Seq::empty() }
    } else {
        Plan {
            source,
            target,
            columns: spans_over(
                results,
                source.width,
                source.grid_res,
                target.grid_res,
                real_of(N_180),
            ),
            rows: spans_over(
                results,
                source.height,
                source.grid_res,
                target.grid_res,
                real_of(N_90),
            ),
        }
    }
}

/// Whether a worksheet holds all that laying one grid over another takes. Equal grids take nothing.
pub open spec fn plan_supplied(
    results: Map<Operation, u64>,
    source: GridSpec,
    target: GridSpec,
) -> bool {
    !source.same(target) ==> spans_supplied(
        results,
        source.width,
        source.grid_res,
        target.grid_res,
        real_of(N_180),
    ) && spans_supplied(
        results,
        source.height,
        source.grid_res,
        target.grid_res,
        real_of(N_90),
    )
}

/// The maps that a payload paints.
pub open spec fn painted_payload(
    results: Map<Operation, u64>,
    input: Seq<u8>,
    envelope: Envelope,
    source: GridSpec,
    target: GridSpec,
) -> Result<Maps, ScenarioFault> {
    match runs_from(
        input,
        envelope.payload_start as int,
        envelope.payload_end as int,
        0,
        0,
        envelope.entry_count as int,
    ) {
        Ok(runs) => Ok(
            after_runs(
                open_sea(target.area() as nat),
                runs,
                plan_for(results, source, target),
                runs.len(),
            ),
        ),
        Err(fault) => Err(fault),
    }
}

pub open spec fn with_earlier(
    done: Seq<Run>,
    rest: Result<Seq<Run>, ScenarioFault>,
) -> Result<Seq<Run>, ScenarioFault> {
    match rest {
        Ok(runs) => Ok(done + runs),
        Err(fault) => Err(fault),
    }
}

proof fn lemma_after_runs_prefix(
    before: Maps,
    runs: Seq<Run>,
    longer: Seq<Run>,
    plan: Plan,
    count: nat,
)
    requires
        count <= runs.len() <= longer.len(),
        forall|i: int| 0 <= i < runs.len() ==> runs[i] == longer[i],
    ensures
        after_runs(before, runs, plan, count) == after_runs(before, longer, plan, count),
    decreases count,
{
    if count > 0 {
        lemma_after_runs_prefix(before, runs, longer, plan, (count - 1) as nat);
    }
}

/// Decode the runs of a payload between two known grids.
pub fn decode_payload(
    input: &[u8],
    envelope: Envelope,
    source: GridSpec,
    target: GridSpec,
    sheet: &Worksheet,
) -> (outcome: Result<WorldMaps, Stop<ScenarioError>>)
    requires
        source.area() <= usize::MAX,
        0 < target.width,
        0 < target.height,
        target.area() <= usize::MAX,
    ensures
        match outcome {
            Ok(maps) => painted_payload(sheet@, input@, envelope, source, target) == Ok::<
                Maps,
                ScenarioFault,
            >(maps@) && maps@.over(target.area()),
            Err(Stop::Failed(error)) => painted_payload(sheet@, input@, envelope, source, target)
                == Err::<Maps, ScenarioFault>(error.fault()),
            Err(Stop::Missing(missing)) => {
                &&& missing@.len() > 0
                &&& all_missing(missing@, sheet@)
                &&& !plan_supplied(sheet@, source, target)
            },
        },
{
    let mut reader = sheet.reader();
    let same = source.equals(target);
    let mut columns: Vec<Span> = Vec::new();
    let mut rows: Vec<Span> = Vec::new();
    if !same {
        columns =
        compute_spans(
            source.width,
            source.grid_res,
            target.grid_res,
            Real::from_bits(N_180),
            &mut reader,
        );
        rows =
        compute_spans(
            source.height,
            source.grid_res,
            target.grid_res,
            Real::from_bits(N_90),
            &mut reader,
        );
    }
    if !reader.is_complete() {
        return Err(Stop::Missing(reader.into_missing()));
    }
    let plan: Ghost<Plan> = Ghost(plan_for(sheet@, source, target));
    proof {
        assert(columns@ =~= plan@.columns);
        assert(rows@ =~= plan@.rows);
        assert(0 <= target.area()) by (nonlinear_arith)
            requires
                target.area() == target.width * target.height,
                target.width >= 0,
                target.height >= 0,
        ;
        assert(target.width * target.height == target.area());
    }
    let cells: usize = target.width * target.height;
    let mut maps = WorldMaps {
        world_control: vec![0u16; cells],
        de_jure: vec![0u16; cells],
        land: vec![0u8; cells],
        biome: vec![0u8; cells],
    };
    let ghost blank = open_sea(target.area() as nat);
    proof {
        assert(maps@.world_control =~= blank.world_control);
        assert(maps@.de_jure =~= blank.de_jure);
        assert(maps@.land =~= blank.land);
        assert(maps@.biome =~= blank.biome);
    }
    let ghost mut done = Seq::<Run>::empty();
    let ghost whole = runs_from(
        input@,
        envelope.payload_start as int,
        envelope.payload_end as int,
        0,
        0,
        envelope.entry_count as int,
    );
    let mut cursor: usize = envelope.payload_start;
    let mut previous: i64 = 0;
    let mut decoded: u64 = 0;
    proof {
        if let Ok(runs) = whole {
            assert(done + runs =~= runs);
        }
    }
    while cursor < envelope.payload_end
        invariant
            same == source.same(target),
            plan@ == (Plan { source, target, columns: columns@, rows: rows@ }),
            plan@ == plan_for(sheet@, source, target),
            source.area() <= usize::MAX,
            !same ==> columns@.len() == source.width && rows@.len() == source.height,
            0 < target.width,
            0 < target.height,
            target.area() <= usize::MAX,
            maps@.over(target.area()),
            blank == open_sea(target.area() as nat),
            whole == runs_from(
                input@,
                envelope.payload_start as int,
                envelope.payload_end as int,
                0,
                0,
                envelope.entry_count as int,
            ),
            maps@ == after_runs(blank, done, plan@, done.len()),
            whole == with_earlier(
                done,
                runs_from(
                    input@,
                    cursor as int,
                    envelope.payload_end as int,
                    previous as int,
                    decoded as int,
                    envelope.entry_count as int,
                ),
            ),
        decreases input@.len() - cursor,
    {
        let ghost rest_before = runs_from(
            input@,
            cursor as int,
            envelope.payload_end as int,
            previous as int,
            decoded as int,
            envelope.entry_count as int,
        );
        let (run, next) = match read_run(input, cursor, previous) {
            Ok(pair) => pair,
            Err(error) => {
                return Err(Stop::Failed(error));
            },
        };
        let total: u64 = match decoded.checked_add(run.length as u64) {
            Some(total) => total,
            None => {
                return Err(Stop::Failed(ScenarioError::EntryCountMismatch));
            },
        };
        paint_run(&mut maps, run, source, target, same, &columns, &rows, plan);
        proof {
            let longer = done.push(run);
            lemma_after_runs_prefix(blank, done, longer, plan@, done.len());
            let rest = runs_from(
                input@,
                next as int,
                envelope.payload_end as int,
                run.start as int,
                total as int,
                envelope.entry_count as int,
            );
            assert(rest_before == (match rest {
                Ok(runs) => Ok::<Seq<Run>, ScenarioFault>(seq![run] + runs),
                Err(fault) => Err(fault),
            }));
            if let Ok(runs) = rest {
                assert(done + (seq![run] + runs) =~= longer + runs);
            }
            done = longer;
        }
        previous = run.start;
        decoded = total;
        cursor = next;
    }
    if cursor != envelope.payload_end || decoded != envelope.entry_count as u64 {
        return Err(Stop::Failed(ScenarioError::EntryCountMismatch));
    }
    proof {
        assert(done + Seq::<Run>::empty() =~= done);
    }
    Ok(maps)
}

/// What the metadata says about the source grid.
#[derive(Clone, Copy, Debug, PartialEq, Eq, Structural)]
pub struct MetadataGrid {
    pub grid_res: Option<Real>,
    pub world_width: Option<Real>,
    pub world_height: Option<Real>,
}

/// The grid fields of a document.
pub open spec fn metadata_grid(metadata: Json) -> MetadataGrid {
    MetadataGrid {
        grid_res: field_at(metadata, "gridRes"@).number(),
        world_width: field_at(metadata, "worldWidthDeg"@).number(),
        world_height: field_at(metadata, "worldHeightDeg"@).number(),
    }
}

pub open spec fn positive_or(value: Option<Real>, fallback: Real) -> Real {
    match value {
        Some(number) => if positive(number) {
            number
        } else {
            fallback
        },
        None => fallback,
    }
}

/// The source grid that the metadata describes.
pub open spec fn described_grid(
    results: Map<Operation, u64>,
    numbers: MetadataGrid,
) -> Result<GridSpec, ScenarioFault> {
    match numbers.grid_res {
        None => Err(ScenarioFault::InvalidGrid("metadata has no numeric gridRes")),
        Some(grid_res) => sized_grid(
            results,
            grid_res,
            positive_or(numbers.world_width, real_of(N_360)),
            positive_or(numbers.world_height, real_of(N_180)),
        ),
    }
}

/// Whether a worksheet holds all that the source grid takes.
pub open spec fn description_supplied(results: Map<Operation, u64>, numbers: MetadataGrid) -> bool {
    numbers.grid_res matches Some(grid_res) ==> sizing_supplied(
        results,
        grid_res,
        positive_or(numbers.world_width, real_of(N_360)),
        positive_or(numbers.world_height, real_of(N_180)),
    )
}

fn positive_number_or(value: Option<Real>, fallback: Real) -> (number: Real)
    ensures
        number == positive_or(value, fallback),
{
    match value {
        Some(number) => if is_positive(number) {
            number
        } else {
            fallback
        },
        None => fallback,
    }
}

/// The source grid of a scenario.
pub fn source_grid(numbers: MetadataGrid, sheet: &Worksheet) -> (outcome: Result<
    GridSpec,
    Stop<ScenarioError>,
>)
    ensures
        match outcome {
            Ok(grid) => described_grid(sheet@, numbers) == Ok::<GridSpec, ScenarioFault>(grid),
            Err(Stop::Failed(error)) => described_grid(sheet@, numbers) == Err::<
                GridSpec,
                ScenarioFault,
            >(error.fault()),
            Err(Stop::Missing(missing)) => {
                &&& missing@.len() > 0
                &&& all_missing(missing@, sheet@)
                &&& !description_supplied(sheet@, numbers)
            },
        },
{
    match numbers.grid_res {
        None => Err(
            Stop::Failed(ScenarioError::InvalidGrid("metadata has no numeric gridRes")),
        ),
        Some(grid_res) => GridSpec::with_world_size(
            grid_res,
            positive_number_or(numbers.world_width, Real::from_bits(N_360)),
            positive_number_or(numbers.world_height, Real::from_bits(N_180)),
            sheet,
        ),
    }
}

fn read_metadata_grid(metadata: &serde_json::Value) -> (numbers: MetadataGrid)
    ensures
        numbers == metadata_grid(json_contents(*metadata)),
{
    MetadataGrid {
        grid_res: read_field(metadata, "gridRes").as_number(),
        world_width: read_field(metadata, "worldWidthDeg").as_number(),
        world_height: read_field(metadata, "worldHeightDeg").as_number(),
    }
}

/// Dense maps of one scenario.
#[derive(Debug)]
pub struct DecodedScenario {
    /// The metadata document of the envelope.
    pub metadata: serde_json::Value,
    pub source: GridSpec,
    pub target: GridSpec,
    pub entry_count: u32,
    pub world_control: Vec<u16>,
    pub de_jure: Vec<u16>,
    pub land: Vec<u8>,
    pub biome: Vec<u8>,
    /// The province of every cell that has an owner, and zero elsewhere.
    pub province: Vec<i32>,
}

/// What a freshly decoded scenario says.
pub ghost struct ScenarioModel {
    pub metadata: Json,
    pub source: GridSpec,
    pub target: GridSpec,
    pub entry_count: u32,
    pub maps: Maps,
    pub province: Seq<i32>,
}

impl View for DecodedScenario {
    type V = ScenarioModel;

    open spec fn view(&self) -> ScenarioModel {
        ScenarioModel {
            metadata: json_contents(self.metadata),
            source: self.source,
            target: self.target,
            entry_count: self.entry_count,
            maps: Maps {
                world_control: self.world_control@,
                de_jure: self.de_jure@,
                land: self.land@,
                biome: self.biome@,
            },
            province: self.province@,
        }
    }
}

/// What a scenario decodes to once its metadata is known. Without a target it expands at its own
/// resolution.
pub open spec fn decoded_with(
    results: Map<Operation, u64>,
    input: Seq<u8>,
    envelope: Envelope,
    metadata: Json,
    target: Option<GridSpec>,
) -> Result<ScenarioModel, ScenarioFault> {
    match described_grid(results, metadata_grid(metadata)) {
        Err(fault) => Err(fault),
        Ok(source) => {
            let wanted = match target {
                Some(grid) => grid,
                None => source,
            };
            match target_fault(wanted) {
                Some(fault) => Err(fault),
                None => match painted_payload(results, input, envelope, source, wanted) {
                    Err(fault) => Err(fault),
                    Ok(maps) => Ok(
                        ScenarioModel {
                            metadata,
                            source,
                            target: wanted,
                            entry_count: envelope.entry_count,
                            maps,
                            province: province_map(
                                results,
                                maps.world_control,
                                wanted,
                            ),
                        },
                    ),
                },
            }
        },
    }
}

/// What scenario bytes decode to.
pub open spec fn decoded_scenario(
    results: Map<Operation, u64>,
    input: Seq<u8>,
    target: Option<GridSpec>,
) -> Result<ScenarioModel, ScenarioFault> {
    match envelope_of(input) {
        Err(fault) => Err(fault),
        Ok(envelope) => match parsed_json(
            input.subrange(envelope.header_bytes as int, envelope.payload_start as int),
        ) {
            None => Err(ScenarioFault::Metadata),
            Some(metadata) => decoded_with(results, input, envelope, metadata, target),
        },
    }
}

/// Whether a worksheet holds all that decoding takes. Bytes that are no scenario take nothing.
pub open spec fn decoding_supplied(
    results: Map<Operation, u64>,
    input: Seq<u8>,
    target: Option<GridSpec>,
) -> bool {
    envelope_of(input) matches Ok(envelope) ==> (parsed_json(
        input.subrange(envelope.header_bytes as int, envelope.payload_start as int),
    ) matches Some(metadata) ==> {
        &&& description_supplied(results, metadata_grid(metadata))
        &&& (described_grid(results, metadata_grid(metadata)) matches Ok(source) ==> {
            let wanted = match target {
                Some(grid) => grid,
                None => source,
            };
            target_fault(wanted) is None ==> plan_supplied(results, source, wanted) && (
            painted_payload(results, input, envelope, source, wanted) matches Ok(maps)
                ==> provinces_supplied(results, maps.world_control, wanted))
        })
    })
}

/// The province of each cell: cells without an owner have none.
pub open spec fn province_map(
    results: Map<Operation, u64>,
    owners: Seq<u16>,
    grid: GridSpec,
) -> Seq<i32> {
    Seq::new(
        owners.len(),
        |cell: int|
            if owners[cell] == 0 {
                0i32
            } else {
                signed_word(
                    province_of(
                        results,
                        (cell % grid.width as int) as usize,
                        (cell / grid.width as int) as usize,
                        owners[cell] as u32,
                        grid.grid_res,
                    ),
                ) as i32
            },
    )
}

/// Whether a worksheet holds all that the provinces of all cells take.
pub open spec fn provinces_supplied(
    results: Map<Operation, u64>,
    owners: Seq<u16>,
    grid: GridSpec,
) -> bool {
    forall|cell: int|
        0 <= cell < owners.len() && #[trigger] owners[cell] != 0 ==> province_supplied(
            results,
            (cell % grid.width as int) as usize,
            (cell / grid.width as int) as usize,
            owners[cell] as u32,
            grid.grid_res,
        )
}

fn append_missing(missing: &mut Vec<Operation>, more: Vec<Operation>, sheet: &Worksheet)
    requires
        all_missing(old(missing)@, sheet@),
        all_missing(more@, sheet@),
    ensures
        all_missing(final(missing)@, sheet@),
        final(missing)@.len() == old(missing)@.len() + more@.len(),
{
    let ghost base = missing@;
    let mut at: usize = 0;
    while at < more.len()
        invariant
            at <= more@.len(),
            all_missing(more@, sheet@),
            all_missing(base, sheet@),
            missing@ =~= base + more@.take(at as int),
        decreases more@.len() - at,
    {
        missing.push(more[at]);
        at = at + 1;
    }
    assert(missing@ =~= base + more@);
}

fn assign_provinces(owners: &Vec<u16>, grid: GridSpec, sheet: &Worksheet) -> (outcome: Result<
    Vec<i32>,
    Vec<Operation>,
>)
    requires
        grid.width > 0,
    ensures
        match outcome {
            Ok(provinces) => provinces@ == province_map(sheet@, owners@, grid),
            Err(missing) => missing@.len() > 0 && all_missing(missing@, sheet@)
                && !provinces_supplied(sheet@, owners@, grid),
        },
{
    let mut provinces: Vec<i32> = Vec::new();
    let mut missing: Vec<Operation> = Vec::new();
    let mut cell: usize = 0;
    while cell < owners.len()
        invariant
            cell <= owners@.len(),
            grid.width > 0,
            provinces@.len() == cell,
            all_missing(missing@, sheet@),
            missing@.len() == 0 ==> forall|i: int|
                0 <= i < cell ==> #[trigger] provinces@[i] == province_map(
                    sheet@,
                    owners@,
                    grid,
                )[i],
            missing@.len() > 0 ==> !provinces_supplied(sheet@, owners@, grid),
        decreases owners@.len() - cell,
    {
        let ghost index = cell as int;
        let ghost width = grid.width as int;
        assert(index % width == (cell % grid.width) as int && index / width == (cell
            / grid.width) as int);
        match province_id(
            cell % grid.width,
            cell / grid.width,
            owners[cell] as u32,
            grid.grid_res,
            sheet,
        ) {
            Ok(province) => provinces.push(province),
            Err(more) => {
                proof {
                    assert(owners@[index] != 0);
                }
                append_missing(&mut missing, more, sheet);
                provinces.push(0);
            },
        }
        cell = cell + 1;
    }
    if missing.len() > 0 {
        return Err(missing);
    }
    assert(provinces@ =~= province_map(sheet@, owners@, grid));
    Ok(provinces)
}

/// Decode scenario bytes.
pub fn decode_mwsc(input: &[u8], target: Option<GridSpec>, sheet: &Worksheet) -> (outcome: Result<
    DecodedScenario,
    Stop<ScenarioError>,
>)
    ensures
        match outcome {
            Ok(scenario) => decoded_scenario(sheet@, input@, target) == Ok::<
                ScenarioModel,
                ScenarioFault,
            >(scenario@),
            Err(Stop::Failed(error)) => decoded_scenario(sheet@, input@, target) == Err::<
                ScenarioModel,
                ScenarioFault,
            >(error.fault()),
            Err(Stop::Missing(missing)) => {
                &&& missing@.len() > 0
                &&& all_missing(missing@, sheet@)
                &&& !decoding_supplied(sheet@, input@, target)
            },
        },
{
    let envelope = match parse_envelope(input) {
        Ok(envelope) => envelope,
        Err(error) => {
            return Err(Stop::Failed(error));
        },
    };
    let document = slice_subrange(input, envelope.header_bytes, envelope.payload_start);
    let metadata = match parse_json(document) {
        Ok(metadata) => metadata,
        Err(error) => {
            return Err(Stop::Failed(ScenarioError::Metadata(error)));
        },
    };
    let source = match source_grid(read_metadata_grid(&metadata), sheet) {
        Ok(grid) => grid,
        Err(stop) => {
            return Err(stop);
        },
    };
    let wanted = match target {
        Some(grid) => grid,
        None => source,
    };
    if let Err(error) = validate_target(wanted) {
        return Err(Stop::Failed(error));
    }
    proof {
        lemma_sized_grid(sheet@, metadata_grid(json_contents(metadata)));
        assert(wanted.width * wanted.height == wanted.area());
    }
    let maps = match decode_payload(input, envelope, source, wanted, sheet) {
        Ok(maps) => maps,
        Err(stop) => {
            return Err(stop);
        },
    };
    let province = match assign_provinces(&maps.world_control, wanted, sheet) {
        Ok(province) => province,
        Err(missing) => {
            return Err(Stop::Missing(missing));
        },
    };
    Ok(
        DecodedScenario {
            metadata,
            source,
            target: wanted,
            entry_count: envelope.entry_count,
            world_control: maps.world_control,
            de_jure: maps.de_jure,
            land: maps.land,
            biome: maps.biome,
            province,
        },
    )
}

/// A grid that was sized has cells, and not too many.
proof fn lemma_sized_grid(results: Map<Operation, u64>, numbers: MetadataGrid)
    ensures
        described_grid(results, numbers) matches Ok(grid) ==> grid.area() <= usize::MAX,
{
}

/// The bytes that compressed bytes unpack to, if they are a complete first member of a gzip
/// stream.
pub uninterp spec fn unpacked(input: Seq<u8>) -> Option<Seq<u8>>;

/// Calls `flate2::read::GzDecoder` and reads it to its end. It claims that the outcome depends on
/// the compressed bytes alone. What a failure carries (its kind and its words) is left open.
#[verifier::external_body]
fn unpack(input: &[u8]) -> (outcome: Result<Vec<u8>, std::io::Error>)
    ensures
        outcome matches Ok(bytes) ==> unpacked(input@) == Some(bytes@),
        outcome is Err ==> unpacked(input@) is None,
{
    let mut decoder = flate2::read::GzDecoder::new(input);
    let mut bytes = Vec::new();
    std::io::Read::read_to_end(&mut decoder, &mut bytes).map(|_| bytes)
}

/// What compressed scenario bytes decode to.
pub open spec fn decoded_gzip(
    results: Map<Operation, u64>,
    input: Seq<u8>,
    target: Option<GridSpec>,
) -> Result<ScenarioModel, ScenarioFault> {
    match unpacked(input) {
        Some(bytes) => decoded_scenario(results, bytes, target),
        None => Err(ScenarioFault::Io),
    }
}

/// Unpack gzip bytes and decode the scenario that they contain.
pub fn decode_mwsc_gzip(input: &[u8], target: Option<GridSpec>, sheet: &Worksheet) -> (outcome:
    Result<DecodedScenario, Stop<ScenarioError>>)
    ensures
        match outcome {
            Ok(scenario) => decoded_gzip(sheet@, input@, target) == Ok::<
                ScenarioModel,
                ScenarioFault,
            >(scenario@),
            Err(Stop::Failed(error)) => decoded_gzip(sheet@, input@, target) == Err::<
                ScenarioModel,
                ScenarioFault,
            >(error.fault()),
            Err(Stop::Missing(missing)) => {
                &&& missing@.len() > 0
                &&& all_missing(missing@, sheet@)
                &&& unpacked(input@) matches Some(bytes) && !decoding_supplied(
                    sheet@,
                    bytes,
                    target,
                )
            },
        },
{
    match unpack(input) {
        Ok(bytes) => decode_mwsc(bytes.as_slice(), target, sheet),
        Err(error) => Err(Stop::Failed(ScenarioError::Io(error))),
    }
}

/// The integer of a number modulo two to the 32nd; zero for what is no number.
pub open spec fn wrapped(results: Map<Operation, u64>, value: Real) -> u32 {
    if !value.finite() || value.same(real_of(0)) {
        0
    } else {
        (results[Operation::Wrapped(value)] % 0x1_0000_0000) as u32
    }
}

pub open spec fn sine(results: Map<Operation, u64>, value: Real) -> Real {
    number_at(results, Operation::Sine(value))
}

pub open spec fn cosine(results: Map<Operation, u64>, value: Real) -> Real {
    number_at(results, Operation::Cosine(value))
}

/// The weighted sum of two numbers.
pub open spec fn blend(
    results: Map<Operation, u64>,
    first: Real,
    first_weight: Real,
    second: Real,
    second_weight: Real,
) -> Real {
    sum(
        results,
        product(results, first, first_weight),
        product(results, second, second_weight),
    )
}

/// The province of a cell: the country and the cell of a warped lattice around it, mixed.
pub open spec fn province_of(
    results: Map<Operation, u64>,
    x: usize,
    y: usize,
    country_id: u32,
    grid_res: Real,
) -> u32 {
    let lat = difference(
        results,
        product(results, integer(results, y as u64), grid_res),
        real_of(N_90),
    );
    let lng = difference(
        results,
        product(results, integer(results, x as u64), grid_res),
        real_of(N_180),
    );
    let nx = product(results, lng, real_of(N_0_65));
    let ny = product(results, lat, real_of(N_0_65));
    let country = integer(results, country_id as u64);
    let w1 = product(
        results,
        sine(
            results,
            sum(
                results,
                blend(results, nx, real_of(N_0_8), ny, real_of(N_0_6)),
                product(results, country, real_of(N_0_1)),
            ),
        ),
        real_of(N_1_2),
    );
    let w2 = product(
        results,
        cosine(
            results,
            sum(
                results,
                difference(
                    results,
                    product(results, nx, real_of(N_0_5)),
                    product(results, ny, real_of(N_0_9)),
                ),
                product(results, country, real_of(N_0_2)),
            ),
        ),
        real_of(N_1_1),
    );
    let n1 = product(
        results,
        sine(results, product(results, sum(results, nx, w1), real_of(N_2_3))),
        real_of(N_0_5),
    );
    let n2 = product(
        results,
        sine(results, product(results, sum(results, ny, w2), real_of(N_1_9))),
        real_of(N_0_5),
    );
    let n3 = product(
        results,
        sine(
            results,
            sum(results, product(results, sum(results, nx, ny), real_of(N_1_4)), country),
        ),
        real_of(N_0_3),
    );
    let n4 = product(
        results,
        cosine(
            results,
            difference(
                results,
                product(results, nx, real_of(N_3_1)),
                product(results, ny, real_of(N_2_7)),
            ),
        ),
        real_of(N_0_2),
    );
    let noise = sum(results, sum(results, sum(results, n1, n2), n3), n4);
    let cell_x = number_at(
        results,
        Operation::Floor(sum(results, sum(results, nx, w1), noise)),
    );
    let cell_y = number_at(
        results,
        Operation::Floor(sum(results, sum(results, ny, w2), noise)),
    );
    wrapped(results, product(results, cell_x, real_of(N_73856093)).absolute()) ^ wrapped(
        results,
        product(results, cell_y, real_of(N_19349663)).absolute(),
    ) ^ wrapped(results, product(results, country, real_of(N_83492791)))
}

/// Whether a worksheet holds all that wrapping a number takes.
pub open spec fn wrapping_supplied(results: Map<Operation, u64>, value: Real) -> bool {
    value.finite() && !value.same(real_of(0)) ==> results.contains_key(Operation::Wrapped(value))
}

/// Whether a worksheet holds all that the province of a cell takes.
pub open spec fn province_supplied(
    results: Map<Operation, u64>,
    x: usize,
    y: usize,
    country_id: u32,
    grid_res: Real,
) -> bool {
    let row = integer(results, y as u64);
    let column = integer(results, x as u64);
    let north = product(results, row, grid_res);
    let east = product(results, column, grid_res);
    let lat = difference(results, north, real_of(N_90));
    let lng = difference(results, east, real_of(N_180));
    let nx = product(results, lng, real_of(N_0_65));
    let ny = product(results, lat, real_of(N_0_65));
    let country = integer(results, country_id as u64);
    let a1 = product(results, nx, real_of(N_0_8));
    let a2 = product(results, ny, real_of(N_0_6));
    let a3 = sum(results, a1, a2);
    let a4 = product(results, country, real_of(N_0_1));
    let a5 = sum(results, a3, a4);
    let a6 = number_at(results, Operation::Sine(a5));
    let w1 = product(results, a6, real_of(N_1_2));
    let b1 = product(results, nx, real_of(N_0_5));
    let b2 = product(results, ny, real_of(N_0_9));
    let b3 = difference(results, b1, b2);
    let b4 = product(results, country, real_of(N_0_2));
    let b5 = sum(results, b3, b4);
    let b6 = number_at(results, Operation::Cosine(b5));
    let w2 = product(results, b6, real_of(N_1_1));
    let warped_x = sum(results, nx, w1);
    let c1 = product(results, warped_x, real_of(N_2_3));
    let c2 = number_at(results, Operation::Sine(c1));
    let n1 = product(results, c2, real_of(N_0_5));
    let warped_y = sum(results, ny, w2);
    let d1 = product(results, warped_y, real_of(N_1_9));
    let d2 = number_at(results, Operation::Sine(d1));
    let n2 = product(results, d2, real_of(N_0_5));
    let e1 = sum(results, nx, ny);
    let e2 = product(results, e1, real_of(N_1_4));
    let e3 = sum(results, e2, country);
    let e4 = number_at(results, Operation::Sine(e3));
    let n3 = product(results, e4, real_of(N_0_3));
    let f1 = product(results, nx, real_of(N_3_1));
    let f2 = product(results, ny, real_of(N_2_7));
    let f3 = difference(results, f1, f2);
    let f4 = number_at(results, Operation::Cosine(f3));
    let n4 = product(results, f4, real_of(N_0_2));
    let g1 = sum(results, n1, n2);
    let g2 = sum(results, g1, n3);
    let noise = sum(results, g2, n4);
    let noisy_x = sum(results, warped_x, noise);
    let noisy_y = sum(results, warped_y, noise);
    let cell_x = number_at(results, Operation::Floor(noisy_x));
    let cell_y = number_at(results, Operation::Floor(noisy_y));
    let p1 = product(results, cell_x, real_of(N_73856093)).absolute();
    let p2 = product(results, cell_y, real_of(N_19349663)).absolute();
    let p3 = product(results, country, real_of(N_83492791));
    &&& results.contains_key(Operation::Integer(y as u64))
    &&& results.contains_key(Operation::Integer(x as u64))
    &&& results.contains_key(Operation::Product(row, grid_res))
    &&& results.contains_key(Operation::Product(column, grid_res))
    &&& results.contains_key(Operation::Difference(north, real_of(N_90)))
    &&& results.contains_key(Operation::Difference(east, real_of(N_180)))
    &&& results.contains_key(Operation::Product(lng, real_of(N_0_65)))
    &&& results.contains_key(Operation::Product(lat, real_of(N_0_65)))
    &&& results.contains_key(Operation::Integer(country_id as u64))
    &&& results.contains_key(Operation::Product(nx, real_of(N_0_8)))
    &&& results.contains_key(Operation::Product(ny, real_of(N_0_6)))
    &&& results.contains_key(Operation::Sum(a1, a2))
    &&& results.contains_key(Operation::Product(country, real_of(N_0_1)))
    &&& results.contains_key(Operation::Sum(a3, a4))
    &&& results.contains_key(Operation::Sine(a5))
    &&& results.contains_key(Operation::Product(a6, real_of(N_1_2)))
    &&& results.contains_key(Operation::Product(nx, real_of(N_0_5)))
    &&& results.contains_key(Operation::Product(ny, real_of(N_0_9)))
    &&& results.contains_key(Operation::Difference(b1, b2))
    &&& results.contains_key(Operation::Product(country, real_of(N_0_2)))
    &&& results.contains_key(Operation::Sum(b3, b4))
    &&& results.contains_key(Operation::Cosine(b5))
    &&& results.contains_key(Operation::Product(b6, real_of(N_1_1)))
    &&& results.contains_key(Operation::Sum(nx, w1))
    &&& results.contains_key(Operation::Product(warped_x, real_of(N_2_3)))
    &&& results.contains_key(Operation::Sine(c1))
    &&& results.contains_key(Operation::Product(c2, real_of(N_0_5)))
    &&& results.contains_key(Operation::Sum(ny, w2))
    &&& results.contains_key(Operation::Product(warped_y, real_of(N_1_9)))
    &&& results.contains_key(Operation::Sine(d1))
    &&& results.contains_key(Operation::Product(d2, real_of(N_0_5)))
    &&& results.contains_key(Operation::Sum(nx, ny))
    &&& results.contains_key(Operation::Product(e1, real_of(N_1_4)))
    &&& results.contains_key(Operation::Sum(e2, country))
    &&& results.contains_key(Operation::Sine(e3))
    &&& results.contains_key(Operation::Product(e4, real_of(N_0_3)))
    &&& results.contains_key(Operation::Product(nx, real_of(N_3_1)))
    &&& results.contains_key(Operation::Product(ny, real_of(N_2_7)))
    &&& results.contains_key(Operation::Difference(f1, f2))
    &&& results.contains_key(Operation::Cosine(f3))
    &&& results.contains_key(Operation::Product(f4, real_of(N_0_2)))
    &&& results.contains_key(Operation::Sum(n1, n2))
    &&& results.contains_key(Operation::Sum(g1, n3))
    &&& results.contains_key(Operation::Sum(g2, n4))
    &&& results.contains_key(Operation::Sum(warped_x, noise))
    &&& results.contains_key(Operation::Sum(warped_y, noise))
    &&& results.contains_key(Operation::Floor(noisy_x))
    &&& results.contains_key(Operation::Floor(noisy_y))
    &&& results.contains_key(Operation::Product(cell_x, real_of(N_73856093)))
    &&& results.contains_key(Operation::Product(cell_y, real_of(N_19349663)))
    &&& results.contains_key(Operation::Product(country, real_of(N_83492791)))
    &&& wrapping_supplied(results, p1)
    &&& wrapping_supplied(results, p2)
    &&& wrapping_supplied(results, p3)
}

fn wrap(value: Real, reader: &mut Reader<'_>) -> (answer: u32)
    requires
        old(reader).sound(),
    ensures
        final(reader)@ == old(reader)@,
        final(reader).sound(),
        final(reader).complete() ==> old(reader).complete() && answer == wrapped(
            old(reader)@,
            value,
        ),
        old(reader).complete() && wrapping_supplied(old(reader)@, value) ==>
            final(reader).complete(),
{
    if !value.is_finite() || value.equals(Real::zero()) {
        0
    } else {
        (reader.gather(Operation::Wrapped(value)) % 0x1_0000_0000) as u32
    }
}

pub open spec fn signed_word(bits: u32) -> int {
    if bits < 0x8000_0000 {
        bits as int
    } else {
        bits - 0x1_0000_0000
    }
}

/// The province of a cell. Cells without an owner have none.
pub fn province_id(x: usize, y: usize, country_id: u32, grid_res: Real, sheet: &Worksheet) -> (
outcome: Result<i32, Vec<Operation>>)
    ensures
        match outcome {
            Ok(province) => province == (if country_id == 0 {
                0
            } else {
                signed_word(province_of(sheet@, x, y, country_id, grid_res))
            }),
            Err(missing) => {
                &&& missing@.len() > 0
                &&& all_missing(missing@, sheet@)
                &&& country_id != 0
                &&& !province_supplied(sheet@, x, y, country_id, grid_res)
            },
        },
{
    if country_id == 0 {
        return Ok(0);
    }
    let mut reader = sheet.reader();
    let row = reader.integer(y as u64);
    let column = reader.integer(x as u64);
    let north = reader.product(row, grid_res);
    let east = reader.product(column, grid_res);
    let lat = reader.difference(north, Real::from_bits(N_90));
    let lng = reader.difference(east, Real::from_bits(N_180));
    let nx = reader.product(lng, Real::from_bits(N_0_65));
    let ny = reader.product(lat, Real::from_bits(N_0_65));
    let country = reader.integer(country_id as u64);
    let a1 = reader.product(nx, Real::from_bits(N_0_8));
    let a2 = reader.product(ny, Real::from_bits(N_0_6));
    let a3 = reader.sum(a1, a2);
    let a4 = reader.product(country, Real::from_bits(N_0_1));
    let a5 = reader.sum(a3, a4);
    let a6 = reader.gather_number(Operation::Sine(a5));
    let w1 = reader.product(a6, Real::from_bits(N_1_2));
    let b1 = reader.product(nx, Real::from_bits(N_0_5));
    let b2 = reader.product(ny, Real::from_bits(N_0_9));
    let b3 = reader.difference(b1, b2);
    let b4 = reader.product(country, Real::from_bits(N_0_2));
    let b5 = reader.sum(b3, b4);
    let b6 = reader.gather_number(Operation::Cosine(b5));
    let w2 = reader.product(b6, Real::from_bits(N_1_1));
    let warped_x = reader.sum(nx, w1);
    let c1 = reader.product(warped_x, Real::from_bits(N_2_3));
    let c2 = reader.gather_number(Operation::Sine(c1));
    let n1 = reader.product(c2, Real::from_bits(N_0_5));
    let warped_y = reader.sum(ny, w2);
    let d1 = reader.product(warped_y, Real::from_bits(N_1_9));
    let d2 = reader.gather_number(Operation::Sine(d1));
    let n2 = reader.product(d2, Real::from_bits(N_0_5));
    let e1 = reader.sum(nx, ny);
    let e2 = reader.product(e1, Real::from_bits(N_1_4));
    let e3 = reader.sum(e2, country);
    let e4 = reader.gather_number(Operation::Sine(e3));
    let n3 = reader.product(e4, Real::from_bits(N_0_3));
    let f1 = reader.product(nx, Real::from_bits(N_3_1));
    let f2 = reader.product(ny, Real::from_bits(N_2_7));
    let f3 = reader.difference(f1, f2);
    let f4 = reader.gather_number(Operation::Cosine(f3));
    let n4 = reader.product(f4, Real::from_bits(N_0_2));
    let g1 = reader.sum(n1, n2);
    let g2 = reader.sum(g1, n3);
    let noise = reader.sum(g2, n4);
    let noisy_x = reader.sum(warped_x, noise);
    let noisy_y = reader.sum(warped_y, noise);
    let cell_x = reader.gather_number(Operation::Floor(noisy_x));
    let cell_y = reader.gather_number(Operation::Floor(noisy_y));
    let p1 = reader.product(cell_x, Real::from_bits(N_73856093)).without_sign();
    let p2 = reader.product(cell_y, Real::from_bits(N_19349663)).without_sign();
    let p3 = reader.product(country, Real::from_bits(N_83492791));
    let h1: u32 = wrap(p1, &mut reader);
    let h2: u32 = wrap(p2, &mut reader);
    let h3: u32 = wrap(p3, &mut reader);
    if !reader.is_complete() {
        return Err(reader.into_missing());
    }
    let mixed: u32 = h1 ^ h2 ^ h3;
    if mixed < 0x8000_0000 {
        Ok(mixed as i32)
    } else {
        Ok(((mixed as i64) - 0x1_0000_0000) as i32)
    }
}

/// Whether a run covers a cell of the target.
pub open spec fn covers(plan: Plan, run: Run, cell: int) -> bool {
    if plan.source.same(plan.target) {
        run.start <= cell < run.start + run.length
    } else {
        exists|index: int|
            run.start <= index < run.start + run.length && #[trigger] lies_over(plan, index, cell)
    }
}

/// The last of the first runs that covers a cell.
pub open spec fn last_cover(plan: Plan, runs: Seq<Run>, cell: int, count: nat) -> Option<Run>
    decreases count,
{
    if count == 0 {
        None
    } else if covers(plan, runs[count - 1], cell) {
        Some(runs[count - 1])
    } else {
        last_cover(plan, runs, cell, (count - 1) as nat)
    }
}

/// The last run that covers a cell decides who owns it, and a cell is land if and only if some
/// run covers it. Biomes are known only where the grids agree.
pub proof fn the_last_write_counts(runs: Seq<Run>, plan: Plan, cells: nat, cell: int, count: nat)
    requires
        0 <= cell < cells,
        count <= runs.len(),
    ensures
        ({
            let maps = after_runs(open_sea(cells), runs, plan, count);
            &&& maps.over(cells as int)
            &&& maps.world_control[cell] == maps.de_jure[cell]
            &&& match last_cover(plan, runs, cell, count) {
                Some(run) => {
                    &&& maps.land[cell] == 1
                    &&& maps.world_control[cell] == run.owner
                    &&& maps.biome[cell] == (if plan.source.same(plan.target) {
                        run.biome
                    } else {
                        0
                    })
                },
                None => maps.land[cell] == 0 && maps.world_control[cell] == 0 && maps.biome[cell]
                    == 0,
            }
        }),
    decreases count,
{
    if count > 0 {
        the_last_write_counts(runs, plan, cells, cell, (count - 1) as nat);
        let last = runs[count - 1];
        assert(covers(plan, last, cell) == (if plan.source.same(plan.target) {
            in_range(last.start as int, last.start + last.length)(cell)
        } else {
            under_range(plan, last.start as int, last.start + last.length)(cell)
        }));
    }
}

/// How many cells of the source the first runs are about.
pub open spec fn cells_in_runs(runs: Seq<Run>, count: nat) -> int
    decreases count,
{
    if count == 0 {
        0
    } else {
        cells_in_runs(runs, (count - 1) as nat) + runs[count - 1].length
    }
}

proof fn lemma_cells_shift(first: Run, rest: Seq<Run>, count: nat)
    requires
        count <= rest.len(),
    ensures
        cells_in_runs(seq![first] + rest, count + 1) == first.length + cells_in_runs(rest, count),
    decreases count,
{
    let whole = seq![first] + rest;
    if count > 0 {
        lemma_cells_shift(first, rest, (count - 1) as nat);
        assert(whole[count as int] == rest[count - 1]);
    } else {
        assert(cells_in_runs(whole, 0) == 0);
        assert(whole[0] == first);
    }
}

/// The runs of a payload are about exactly as many cells as its envelope says.
pub proof fn runs_add_up(
    input: Seq<u8>,
    at: int,
    end: int,
    previous: int,
    decoded: int,
    entry_count: int,
)
    ensures
        runs_from(input, at, end, previous, decoded, entry_count) matches Ok(runs) ==> decoded
            + cells_in_runs(runs, runs.len()) == entry_count,
    decreases input.len() - at,
{
    if at < end {
        if let Ok((run, next)) = run_at(input, at, previous) {
            lemma_run_advances(input, at, previous);
            if decoded + run.length <= u64::MAX {
                let start = run.start as int;
                runs_add_up(input, next, end, start, decoded + run.length, entry_count);
                if let Ok(rest) = runs_from(
                    input,
                    next,
                    end,
                    start,
                    decoded + run.length,
                    entry_count,
                ) {
                    lemma_cells_shift(run, rest, rest.len());
                }
            }
        }
    }
}

/// A cell is land or not; what is no land has neither an owner nor a biome, what has no owner has no
/// province, and a biome is known only where the grids agree.
pub open spec fn cell_sound(scenario: ScenarioModel, cell: int) -> bool {
    &&& scenario.maps.land[cell] == 0 || scenario.maps.land[cell] == 1
    &&& scenario.maps.land[cell] == 0 ==> scenario.maps.world_control[cell] == 0
        && scenario.maps.biome[cell] == 0
    &&& scenario.maps.world_control[cell] == 0 ==> scenario.province[cell] == 0
    &&& !scenario.source.same(scenario.target) ==> scenario.maps.biome[cell] == 0
}

/// What decoding promises of every scenario: it has the grid that was asked for, or its own; all
/// maps cover that grid; whoever owns a cell owns it by right, a cell is land or not, and what is no
/// land has neither an owner nor a biome; cells without an owner have no province; biomes are known
/// only where the grids agree; and the runs are about as many cells as the envelope says.
pub proof fn decoded_maps_are_sound(
    results: Map<Operation, u64>,
    input: Seq<u8>,
    target: Option<GridSpec>,
)
    ensures
        decoded_scenario(results, input, target) matches Ok(scenario) ==> {
            let cells = scenario.target.area();
            &&& scenario.target == (match target {
                Some(grid) => grid,
                None => scenario.source,
            })
            &&& scenario.maps.world_control.len() == cells
            &&& scenario.maps.de_jure.len() == cells
            &&& scenario.maps.land.len() == cells
            &&& scenario.maps.biome.len() == cells
            &&& scenario.province.len() == cells
            &&& scenario.maps.de_jure == scenario.maps.world_control
            &&& forall|cell: int| 0 <= cell < cells ==> #[trigger] cell_sound(scenario, cell)
            &&& scenario.entry_count == little_endian(input, 12)
            &&& exists|runs: Seq<Run>| #[trigger]
                cells_in_runs(runs, runs.len()) == scenario.entry_count && scenario.maps
                    == after_runs(
                    open_sea(cells as nat),
                    runs,
                    plan_for(results, scenario.source, scenario.target),
                    runs.len(),
                )
        },
{
    if let Ok(scenario) = decoded_scenario(results, input, target) {
        let envelope = envelope_of(input)->Ok_0;
        let cells = scenario.target.area();
        let plan = plan_for(results, scenario.source, scenario.target);
        let runs = runs_from(
            input,
            envelope.payload_start as int,
            envelope.payload_end as int,
            0,
            0,
            envelope.entry_count as int,
        )->Ok_0;
        runs_add_up(
            input,
            envelope.payload_start as int,
            envelope.payload_end as int,
            0,
            0,
            envelope.entry_count as int,
        );
        assert(cells_in_runs(runs, runs.len()) == scenario.entry_count);
        assert(cells >= 0) by (nonlinear_arith)
            requires
                cells == scenario.target.width * scenario.target.height,
        ;
        lemma_maps_over(runs, plan, cells as nat, runs.len());
        assert(plan.source == scenario.source && plan.target == scenario.target);
        assert forall|cell: int| 0 <= cell < cells implies #[trigger] cell_sound(
            scenario,
            cell,
        ) by {
            the_last_write_counts(runs, plan, cells as nat, cell, runs.len());
        }
        assert(scenario.province.len() == cells);
        assert(scenario.maps.de_jure =~= scenario.maps.world_control) by {
            assert forall|cell: int| 0 <= cell < cells implies scenario.maps.de_jure[cell]
                == scenario.maps.world_control[cell] by {
                the_last_write_counts(runs, plan, cells as nat, cell, runs.len());
            }
        }
        assert(scenario.entry_count == little_endian(input, 12));
    }
}

proof fn lemma_maps_over(runs: Seq<Run>, plan: Plan, cells: nat, count: nat)
    ensures
        after_runs(open_sea(cells), runs, plan, count).over(cells as int),
    decreases count,
{
    if count > 0 {
        lemma_maps_over(runs, plan, cells, (count - 1) as nat);
    }
}

} // verus!
