use flate2::write::GzEncoder;
use flate2::Compression;
use mw_core::scalar::Real;
use mw_core::scenario::{
    decode_mwsc, decode_mwsc_gzip, province_id, read_var_i32, read_var_u32, DecodedScenario,
    GridSpec, ScenarioError,
};
use mw_core::worksheet::{Operation, Stop, Worksheet};
use serde_json::Value;
use std::io::Write;

fn val(value: f64) -> Real {
    Real::from_bits(value.to_bits())
}

fn number(value: Real) -> f64 {
    f64::from_bits(value.bits)
}

fn evaluate(operation: Operation) -> u64 {
    let value = match operation {
        Operation::Integer(n) => n as f64,
        Operation::Sum(a, b) => number(a) + number(b),
        Operation::Difference(a, b) => number(a) - number(b),
        Operation::Product(a, b) => number(a) * number(b),
        Operation::Quotient(a, b) => number(a) / number(b),
        Operation::Floor(a) => number(a).floor(),
        Operation::Ceiling(a) => number(a).ceil(),
        Operation::Power(a, b) => number(a).powf(number(b)),
        Operation::Whole(a) => return number(a) as u64,
        Operation::Round(a) => number(a).round(),
        Operation::Root(a) => number(a).sqrt(),
        Operation::Hypotenuse(a, b) => number(a).hypot(number(b)),
        Operation::LongitudeDelta(a, b) => {
            (number(b) - number(a) + 540.0).rem_euclid(360.0) - 180.0
        }
        Operation::Distance(a, b, c, d) => {
            let (lat, other) = (number(a).to_radians(), number(c).to_radians());
            let up = (number(c) - number(a)).to_radians();
            let mut across = number(d) - number(b);
            if across > 180.0 {
                across -= 360.0;
            } else if across < -180.0 {
                across += 360.0;
            }
            let across = across.to_radians();
            let chord = (up / 2.0).sin().powi(2)
                + lat.cos() * other.cos() * (across / 2.0).sin().powi(2);
            6_371.0 * 2.0 * chord.sqrt().atan2((1.0 - chord).max(0.0).sqrt())
        }
        Operation::Remainder(a, b) => number(a) % number(b),
        Operation::Signed(a) => return (number(a) as i64) as u64,
        Operation::Sine(a) => number(a).sin(),
        Operation::Cosine(a) => number(a).cos(),
        Operation::Wrapped(a) => return number(a).trunc().rem_euclid(4_294_967_296.0) as u64,
        Operation::Single(a) => f64::from(number(a) as f32),
    };
    value.to_bits()
}

fn fill(sheet: &mut Worksheet, missing: Vec<Operation>) {
    assert!(!missing.is_empty());
    for operation in missing {
        sheet.record(operation, evaluate(operation));
    }
}

fn settle<T>(mut attempt: impl FnMut(&Worksheet) -> Result<T, Vec<Operation>>) -> T {
    let mut sheet = Worksheet::new();
    loop {
        match attempt(&sheet) {
            Ok(value) => return value,
            Err(missing) => fill(&mut sheet, missing),
        }
    }
}

fn failed<T>(outcome: Result<T, Stop<ScenarioError>>) -> Result<T, ScenarioError> {
    match outcome {
        Ok(value) => Ok(value),
        Err(Stop::Failed(error)) => Err(error),
        Err(Stop::Missing(_)) => panic!("an operation is missing"),
    }
}

fn solve(
    attempt: impl Fn(&Worksheet) -> Result<DecodedScenario, Stop<ScenarioError>>,
) -> Result<DecodedScenario, ScenarioError> {
    let mut sheet = Worksheet::new();
    loop {
        match attempt(&sheet) {
            Err(Stop::Missing(missing)) => fill(&mut sheet, missing),
            outcome => return failed(outcome),
        }
    }
}

fn province(x: usize, y: usize, country: u32, grid_res: f64) -> i32 {
    settle(|sheet| province_id(x, y, country, val(grid_res), sheet))
}

fn decode(input: &[u8], target: Option<GridSpec>) -> Result<DecodedScenario, ScenarioError> {
    solve(|sheet| decode_mwsc(input, target, sheet))
}

fn json(text: &str) -> Value {
    serde_json::from_str(text).unwrap()
}

fn push_var_u32(output: &mut Vec<u8>, mut value: u32) {
    loop {
        let mut byte = (value & 0x7f) as u8;
        value >>= 7;
        if value != 0 {
            byte |= 0x80;
        }
        output.push(byte);
        if value == 0 {
            break;
        }
    }
}

fn push_var_i32(output: &mut Vec<u8>, value: i32) {
    let zigzag = ((value as u32) << 1) ^ ((value >> 31) as u32);
    push_var_u32(output, zigzag);
}

fn fixture(metadata: Value, entries: &[(i32, u32, u32, u32)]) -> Vec<u8> {
    let metadata = serde_json::to_vec(&metadata).unwrap();
    let mut payload = Vec::new();
    for &(delta, length, owner, biome) in entries {
        push_var_i32(&mut payload, delta);
        push_var_u32(&mut payload, length);
        push_var_u32(&mut payload, owner);
        push_var_u32(&mut payload, biome);
    }
    let entry_count: u32 = entries.iter().map(|entry| entry.1).sum();
    let mut output = vec![0_u8; 20];
    output[..4].copy_from_slice(b"MWSC");
    output[4] = 2;
    output[6..8].copy_from_slice(&20_u16.to_le_bytes());
    output[8..12].copy_from_slice(&(metadata.len() as u32).to_le_bytes());
    output[12..16].copy_from_slice(&entry_count.to_le_bytes());
    output[16..20].copy_from_slice(&(payload.len() as u32).to_le_bytes());
    output.extend(metadata);
    output.extend(payload);
    output
}

fn gzip(bytes: &[u8]) -> Vec<u8> {
    let mut encoder = GzEncoder::new(Vec::new(), Compression::default());
    encoder.write_all(bytes).unwrap();
    encoder.finish().unwrap()
}

#[test]
fn decodes_runs_metadata_and_typed_array_truncation() {
    let metadata = json("{\"gridRes\": 90.0, \"name\": \"synthetic\", \"extra\": [1, 2]}");
    let bytes = fixture(metadata.clone(), &[(0, 2, 65_537, 258), (3, 1, 9, 7)]);
    let decoded = decode(&bytes, None).unwrap();
    assert_eq!(decoded.metadata, metadata);
    assert!(decoded.source.equals(GridSpec { grid_res: val(90.0), width: 4, height: 2 }));
    assert_eq!(decoded.entry_count, 3);
    assert_eq!(decoded.world_control, [1, 1, 0, 9, 0, 0, 0, 0]);
    assert_eq!(decoded.de_jure, decoded.world_control);
    assert_eq!(decoded.land, [1, 1, 0, 1, 0, 0, 0, 0]);
    assert_eq!(decoded.biome, [2, 2, 0, 7, 0, 0, 0, 0]);
    assert_ne!(decoded.province[0], 0);
    assert_eq!(decoded.province[2], 0);
}

#[test]
fn remaps_with_last_write_wins_and_drops_biome_like_js() {
    let bytes = fixture(json("{\"gridRes\": 90.0}"), &[(0, 1, 3, 8), (0, 1, 4, 9)]);
    let target = GridSpec { grid_res: val(45.0), width: 8, height: 4 };
    let decoded = decode(&bytes, Some(target)).unwrap();
    assert_eq!(decoded.world_control[0], 4);
    assert_eq!(decoded.world_control[1], 4);
    assert_eq!(decoded.world_control[8], 4);
    assert_eq!(decoded.world_control[9], 4);
    assert!(decoded.biome.iter().all(|&value| value == 0));
    assert_eq!(decoded.land.iter().filter(|&&value| value == 1).count(), 4);
}

#[test]
fn gzip_helper_matches_plain_decode() {
    let bytes = fixture(json("{\"gridRes\": 180.0}"), &[(0, 1, 7, 2)]);
    let expected = decode(&bytes, None).unwrap();
    let packed = gzip(&bytes);
    let unpacked = solve(|sheet| decode_mwsc_gzip(&packed, None, sheet)).unwrap();
    assert_eq!(unpacked.metadata, expected.metadata);
    assert!(unpacked.source.equals(expected.source));
    assert!(unpacked.target.equals(expected.target));
    assert_eq!(unpacked.entry_count, expected.entry_count);
    assert_eq!(unpacked.world_control, expected.world_control);
    assert_eq!(unpacked.de_jure, expected.de_jure);
    assert_eq!(unpacked.land, expected.land);
    assert_eq!(unpacked.biome, expected.biome);
    assert_eq!(unpacked.province, expected.province);
}

#[test]
fn rejects_malformed_envelopes_and_payloads() {
    assert!(matches!(decode(b"short", None), Err(ScenarioError::Truncated)));
    let mut bytes = fixture(json("{\"gridRes\": 1.0}"), &[]);
    bytes[0] = b'X';
    assert!(matches!(decode(&bytes, None), Err(ScenarioError::InvalidMagic)));
    bytes[0] = b'M';
    bytes[4] = 3;
    assert!(matches!(decode(&bytes, None), Err(ScenarioError::UnsupportedVersion(3))));

    let zero_run = fixture(json("{\"gridRes\": 1.0}"), &[(0, 0, 1, 1)]);
    assert!(matches!(decode(&zero_run, None), Err(ScenarioError::ZeroRunLength)));

    let mut mismatch = fixture(json("{\"gridRes\": 1.0}"), &[(0, 1, 1, 1)]);
    mismatch[12..16].copy_from_slice(&2_u32.to_le_bytes());
    assert!(matches!(decode(&mismatch, None), Err(ScenarioError::EntryCountMismatch)));
}

#[test]
fn rejects_invalid_grid_and_overlong_varint() {
    let missing = fixture(json("{\"name\": \"missing grid\"}"), &[]);
    assert!(matches!(decode(&missing, None), Err(ScenarioError::InvalidGrid(_))));
    let bytes = fixture(json("{\"gridRes\": 1.0}"), &[]);
    assert!(matches!(
        decode(&bytes, Some(GridSpec { grid_res: val(0.0), width: 1, height: 1 })),
        Err(ScenarioError::InvalidGrid(_))
    ));

    let mut invalid = fixture(json("{\"gridRes\": 1.0}"), &[]);
    invalid[12..16].copy_from_slice(&1_u32.to_le_bytes());
    invalid[16..20].copy_from_slice(&5_u32.to_le_bytes());
    invalid.extend([0x80, 0x80, 0x80, 0x80, 0x10]);
    assert!(matches!(decode(&invalid, None), Err(ScenarioError::InvalidVarint)));
}

#[test]
fn province_id_matches_known_javascript_results() {
    assert_eq!(province(0, 0, 7, 0.1), 1_638_578_298);
    assert_eq!(province(1234, 567, 42, 0.1), 1_768_188_734);
    assert_eq!(province(1439, 719, 65_535, 0.25), 1_074_814_664);
}

#[test]
fn cells_without_a_country_have_no_province() {
    assert_eq!(province(3, 4, 0, 1.0), 0);
}

#[test]
fn broken_streams_and_documents_are_refused() {
    assert!(matches!(
        solve(|sheet| decode_mwsc_gzip(b"no gzip at all", None, sheet)),
        Err(ScenarioError::Io(_))
    ));
    let mut bytes = fixture(json("{\"gridRes\": 90.0}"), &[]);
    bytes[20] = b'?';
    assert!(matches!(decode(&bytes, None), Err(ScenarioError::Metadata(_))));
    let mut short = fixture(json("{\"gridRes\": 90.0}"), &[(0, 1, 1, 1)]);
    short.pop();
    assert!(matches!(decode(&short, None), Err(ScenarioError::Truncated)));
}

#[test]
fn varints_carry_signs_in_their_lowest_bit() {
    assert!(matches!(read_var_u32(&[0xac, 0x02], 0), Ok((300, 2))));
    assert!(matches!(read_var_i32(&[0x03], 0), Ok((-2, 1))));
    assert!(matches!(read_var_i32(&[0x04], 0), Ok((2, 1))));
    assert!(matches!(read_var_u32(&[0x80], 0), Err(ScenarioError::InvalidVarint)));
}

#[test]
fn a_world_grid_spans_the_globe() {
    let mut sheet = Worksheet::new();
    let grid = loop {
        match GridSpec::world(val(0.5), &sheet) {
            Err(Stop::Missing(missing)) => fill(&mut sheet, missing),
            outcome => break failed(outcome).unwrap(),
        }
    };
    assert_eq!((grid.width, grid.height), (720, 360));
    assert!(matches!(grid.cell_count(), Ok(259_200)));
    assert!(matches!(
        failed(GridSpec::world(val(-1.0), &Worksheet::new())),
        Err(ScenarioError::InvalidGrid(_))
    ));
}
