//! Bit patterns of the binary64 numbers that the rules name.

use vstd::prelude::*;

verus! {

/// -180.0
pub const MINUS_N_180: u64 = 0xc066_8000_0000_0000;

/// -90.0
pub const MINUS_N_90: u64 = 0xc056_8000_0000_0000;

/// -1.0
pub const MINUS_N_1: u64 = 0xbff0_0000_0000_0000;

/// 0.0001
pub const N_0_0001: u64 = 0x3f1a_36e2_eb1c_432d;

/// 0.002
pub const N_0_002: u64 = 0x3f60_624d_d2f1_a9fc;

/// 0.003
pub const N_0_003: u64 = 0x3f68_9374_bc6a_7efa;

/// 0.012
pub const N_0_012: u64 = 0x3f88_9374_bc6a_7efa;

/// 0.02
pub const N_0_02: u64 = 0x3f94_7ae1_47ae_147b;

/// 0.04
pub const N_0_04: u64 = 0x3fa4_7ae1_47ae_147b;

/// 0.05
pub const N_0_05: u64 = 0x3fa9_9999_9999_999a;

/// 0.066
pub const N_0_066: u64 = 0x3fb0_e560_4189_374c;

/// 0.1
pub const N_0_1: u64 = 0x3fb9_9999_9999_999a;

/// 0.12
pub const N_0_12: u64 = 0x3fbe_b851_eb85_1eb8;

/// 0.15
pub const N_0_15: u64 = 0x3fc3_3333_3333_3333;

/// 0.2
pub const N_0_2: u64 = 0x3fc9_9999_9999_999a;

/// 0.22
pub const N_0_22: u64 = 0x3fcc_28f5_c28f_5c29;

/// 0.25
pub const N_0_25: u64 = 0x3fd0_0000_0000_0000;

/// 0.3
pub const N_0_3: u64 = 0x3fd3_3333_3333_3333;

/// 0.35
pub const N_0_35: u64 = 0x3fd6_6666_6666_6666;

/// 0.4
pub const N_0_4: u64 = 0x3fd9_9999_9999_999a;

/// 0.45
pub const N_0_45: u64 = 0x3fdc_cccc_cccc_cccd;

/// 0.5
pub const N_0_5: u64 = 0x3fe0_0000_0000_0000;

/// 0.55
pub const N_0_55: u64 = 0x3fe1_9999_9999_999a;

/// 0.58
pub const N_0_58: u64 = 0x3fe2_8f5c_28f5_c28f;

/// 0.6
pub const N_0_6: u64 = 0x3fe3_3333_3333_3333;

/// 0.65
pub const N_0_65: u64 = 0x3fe4_cccc_cccc_cccd;

/// 0.7
pub const N_0_7: u64 = 0x3fe6_6666_6666_6666;

/// 0.72
pub const N_0_72: u64 = 0x3fe7_0a3d_70a3_d70a;

/// 0.75
pub const N_0_75: u64 = 0x3fe8_0000_0000_0000;

/// 0.8
pub const N_0_8: u64 = 0x3fe9_9999_9999_999a;

/// 0.85
pub const N_0_85: u64 = 0x3feb_3333_3333_3333;

/// 0.88
pub const N_0_88: u64 = 0x3fec_28f5_c28f_5c29;

/// 0.9
pub const N_0_9: u64 = 0x3fec_cccc_cccc_cccd;

/// 0.95
pub const N_0_95: u64 = 0x3fee_6666_6666_6666;

/// 0.96
pub const N_0_96: u64 = 0x3fee_b851_eb85_1eb8;

/// 1.05
pub const N_1_05: u64 = 0x3ff0_cccc_cccc_cccd;

/// 1.1
pub const N_1_1: u64 = 0x3ff1_9999_9999_999a;

/// 1.2
pub const N_1_2: u64 = 0x3ff3_3333_3333_3333;

/// 1.3
pub const N_1_3: u64 = 0x3ff4_cccc_cccc_cccd;

/// 1.4
pub const N_1_4: u64 = 0x3ff6_6666_6666_6666;

/// 1.5
pub const N_1_5: u64 = 0x3ff8_0000_0000_0000;

/// 1.55
pub const N_1_55: u64 = 0x3ff8_cccc_cccc_cccd;

/// 1.65
pub const N_1_65: u64 = 0x3ffa_6666_6666_6666;

/// 1.85
pub const N_1_85: u64 = 0x3ffd_9999_9999_999a;

/// 1.9
pub const N_1_9: u64 = 0x3ffe_6666_6666_6666;

/// 2.0
pub const N_2: u64 = 0x4000_0000_0000_0000;

/// 2.15
pub const N_2_15: u64 = 0x4001_3333_3333_3333;

/// 2.3
pub const N_2_3: u64 = 0x4002_6666_6666_6666;

/// 2.7
pub const N_2_7: u64 = 0x4005_9999_9999_999a;

/// 3.0
pub const N_3: u64 = 0x4008_0000_0000_0000;

/// 3.1
pub const N_3_1: u64 = 0x4008_cccc_cccc_cccd;

/// 4.0
pub const N_4: u64 = 0x4010_0000_0000_0000;

/// 5.0
pub const N_5: u64 = 0x4014_0000_0000_0000;

/// 8.0
pub const N_8: u64 = 0x4020_0000_0000_0000;

/// 9.0
pub const N_9: u64 = 0x4022_0000_0000_0000;

/// 15.0
pub const N_15: u64 = 0x402e_0000_0000_0000;

/// 50.0
pub const N_50: u64 = 0x4049_0000_0000_0000;

/// 90.0
pub const N_90: u64 = 0x4056_8000_0000_0000;

/// 100.0
pub const N_100: u64 = 0x4059_0000_0000_0000;

/// 180.0
pub const N_180: u64 = 0x4066_8000_0000_0000;

/// 200.0
pub const N_200: u64 = 0x4069_0000_0000_0000;

/// 360.0
pub const N_360: u64 = 0x4076_8000_0000_0000;

/// 500.0
pub const N_500: u64 = 0x407f_4000_0000_0000;

/// 600.0
pub const N_600: u64 = 0x4082_c000_0000_0000;

/// 1000.0
pub const N_1000: u64 = 0x408f_4000_0000_0000;

/// 1500.0
pub const N_1500: u64 = 0x4097_7000_0000_0000;

/// 1800.0
pub const N_1800: u64 = 0x409c_2000_0000_0000;

/// 2000.0
pub const N_2000: u64 = 0x409f_4000_0000_0000;

/// 4000.0
pub const N_4000: u64 = 0x40af_4000_0000_0000;

/// 50000.0
pub const N_50000: u64 = 0x40e8_6a00_0000_0000;

/// 19349663.0
pub const N_19349663: u64 = 0x4172_7409_f000_0000;

/// 73856093.0
pub const N_73856093: u64 = 0x4191_9bd1_7400_0000;

/// 83492791.0
pub const N_83492791: u64 = 0x4193_e7fe_dc00_0000;

/// 2147483647.0
pub const N_2147483647: u64 = 0x41df_ffff_ffc0_0000;

} // verus!
