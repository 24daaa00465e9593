//! Core data types: heartbeats, transactions, blocks, accounts.
//!
//! Every quantity the protocol treats as a real number is a fixed-point
//! integer in micro-units (see [`crate::SCALE`]): motion in micro-g,
//! temperature in milli-degrees Celsius, weights, token amounts and balances
//! in micro-units.  The canonical signable form of each object is a JSON
//! object whose keys are sorted lexicographically and whose bytes are pinned
//! down by spec functions, so a signer and a verifier agree byte for byte.

use vstd::prelude::*;
use vstd::string::StrSliceExecFns;
use vstd::string::StringSliceAdditionalSpecFns;

use crate::SCALE;
use crate::crypto::{hash_sha256, hex_of, sha256_of};
use crate::enc::{
    dec_bytes, dec_bytes_signed, escaped, push_dec_i64, push_dec_u64, push_escaped,
};
use crate::num::isqrt_u128;

verus! {

/// The UTF-8 bytes of a string view.
pub open spec fn utf8(s: Seq<char>) -> Seq<u8> {
    vstd::utf8::encode_utf8(s)
}

/// The bytes of a string literal piece of the canonical form.
pub open spec fn lit(s: &str) -> Seq<u8> {
    s.spec_bytes()
}

/// Append the bytes of `s` to `out`.
pub fn push_str_bytes(out: &mut Vec<u8>, s: &str)
    ensures
        final(out)@ == old(out)@ + s.spec_bytes(),
{
    let mut tmp: Vec<u8> = s.as_bytes_vec();
    out.append(&mut tmp);
}

/// Append the JSON-escaped bytes of `s` to `out`.
pub fn push_escaped_string(out: &mut Vec<u8>, s: &String)
    ensures
        final(out)@ == old(out)@ + escaped(utf8(s@)),
{
    let b: Vec<u8> = s.as_str().as_bytes_vec();
    push_escaped(out, b.as_slice());
}

/// Motion vector from the device accelerometer, in micro-g per axis.
#[derive(Debug, Clone)]
pub struct Motion {
    pub x: i64,
    pub y: i64,
    pub z: i64,
}

/// The square of an integer.
pub open spec fn sq(v: int) -> int {
    v * v
}

impl Motion {
    /// The squared magnitude of the vector, in micro-g squared.
    pub open spec fn magnitude_sq(&self) -> int {
        sq(self.x as int) + sq(self.y as int) + sq(self.z as int)
    }

    /// The magnitude rounded down to a whole number of micro-g.
    pub fn magnitude(&self) -> (r: u64)
        ensures
            sq(r as int) <= self.magnitude_sq(),
            self.magnitude_sq() < sq(r as int + 1),
    {
        let ax: u128 = abs_u128(self.x);
        let ay: u128 = abs_u128(self.y);
        let az: u128 = abs_u128(self.z);
        proof {
            lemma_abs_square(self.x as int, ax as int);
            lemma_abs_square(self.y as int, ay as int);
            lemma_abs_square(self.z as int, az as int);
            vstd::arithmetic::mul::lemma_mul_upper_bound(
                ax as int,
                0x8000_0000_0000_0000,
                ax as int,
                0x8000_0000_0000_0000,
            );
            vstd::arithmetic::mul::lemma_mul_upper_bound(
                ay as int,
                0x8000_0000_0000_0000,
                ay as int,
                0x8000_0000_0000_0000,
            );
            vstd::arithmetic::mul::lemma_mul_upper_bound(
                az as int,
                0x8000_0000_0000_0000,
                az as int,
                0x8000_0000_0000_0000,
            );
            vstd::arithmetic::mul::lemma_mul_upper_bound(
                u64::MAX as int,
                u64::MAX as int,
                u64::MAX as int,
                u64::MAX as int,
            );
        }
        let n: u128 = ax * ax + ay * ay + az * az;
        isqrt_u128(n)
    }
}

/// The magnitude of an `i64`, as `u128`, without overflow at the minimum.
fn abs_u128(v: i64) -> (r: u128)
    ensures
        r as int == if v >= 0 {
            v as int
        } else {
            -(v as int)
        },
        r <= 0x8000_0000_0000_0000u128,
{
    if v >= 0 {
        v as u128
    } else {
        ((-(v + 1)) as u128) + 1
    }
}

proof fn lemma_abs_square(v: int, a: int)
    requires
        a == if v >= 0 {
            v
        } else {
            -v
        },
    ensures
        a * a == v * v,
{
    if v < 0 {
        assert(a * a == v * v) by (nonlinear_arith)
            requires
                a == -v,
        ;
    }
}

/// A heartbeat packet from a device: the atomic unit of proof-of-life.
#[derive(Debug, Clone)]
pub struct Heartbeat {
    /// Unix timestamp in milliseconds.
    pub timestamp: u64,
    /// Heart rate in whole BPM.
    pub heart_rate: u16,
    /// Motion vector, micro-g per axis.
    pub motion: Motion,
    /// Body temperature in milli-degrees Celsius.
    pub temperature: i32,
    /// Device public key, hex-encoded.
    pub device_pubkey: String,
    /// ECDSA signature over the signable bytes, hex-encoded.
    pub signature: String,
}

/// The canonical signable bytes of a heartbeat: a JSON object with the keys
/// sorted lexicographically and the signature left out.
pub open spec fn hb_signable_spec(hb: &Heartbeat) -> Seq<u8> {
    lit("{\"device_pubkey\":\"") + escaped(utf8(hb.device_pubkey@)) + lit("\",\"heart_rate\":")
        + dec_bytes(hb.heart_rate as nat) + lit(",\"motion\":{\"x\":") + dec_bytes_signed(
        hb.motion.x as int,
    ) + lit(",\"y\":") + dec_bytes_signed(hb.motion.y as int) + lit(",\"z\":") + dec_bytes_signed(
        hb.motion.z as int,
    ) + lit("},\"temperature\":") + dec_bytes_signed(hb.temperature as int) + lit(",\"timestamp\":")
        + dec_bytes(hb.timestamp as nat) + lit("}")
}

/// The canonical bytes of a heartbeat with its signature, as embedded in a
/// block: the same object with the `signature` key in sorted position.
pub open spec fn hb_full_spec(hb: &Heartbeat) -> Seq<u8> {
    lit("{\"device_pubkey\":\"") + escaped(utf8(hb.device_pubkey@)) + lit("\",\"heart_rate\":")
        + dec_bytes(hb.heart_rate as nat) + lit(",\"motion\":{\"x\":") + dec_bytes_signed(
        hb.motion.x as int,
    ) + lit(",\"y\":") + dec_bytes_signed(hb.motion.y as int) + lit(",\"z\":") + dec_bytes_signed(
        hb.motion.z as int,
    ) + lit("},\"signature\":\"") + escaped(utf8(hb.signature@)) + lit("\",\"temperature\":")
        + dec_bytes_signed(hb.temperature as int) + lit(",\"timestamp\":") + dec_bytes(
        hb.timestamp as nat,
    ) + lit("}")
}

impl Heartbeat {
    /// An equal copy.  Verified code uses this instead of `clone`, whose
    /// derived impl Verus gives no specification.
    pub fn duplicate(&self) -> (r: Heartbeat)
        ensures
            r == *self,
    {
        let r = Heartbeat {
            timestamp: self.timestamp,
            heart_rate: self.heart_rate,
            motion: Motion { x: self.motion.x, y: self.motion.y, z: self.motion.z },
            temperature: self.temperature,
            device_pubkey: self.device_pubkey.clone(),
            signature: self.signature.clone(),
        };
        assert(r.motion == self.motion);
        r
    }

    /// The signable portion of the heartbeat, signature excluded, with
    /// lexicographically sorted keys.
    pub fn signable_bytes(&self) -> (r: Vec<u8>)
        ensures
            r@ == hb_signable_spec(self),
    {
        let mut out: Vec<u8> = Vec::new();
        push_str_bytes(&mut out, "{\"device_pubkey\":\"");
        push_escaped_string(&mut out, &self.device_pubkey);
        push_str_bytes(&mut out, "\",\"heart_rate\":");
        push_dec_u64(&mut out, self.heart_rate as u64);
        push_str_bytes(&mut out, ",\"motion\":{\"x\":");
        push_dec_i64(&mut out, self.motion.x);
        push_str_bytes(&mut out, ",\"y\":");
        push_dec_i64(&mut out, self.motion.y);
        push_str_bytes(&mut out, ",\"z\":");
        push_dec_i64(&mut out, self.motion.z);
        push_str_bytes(&mut out, "},\"temperature\":");
        push_dec_i64(&mut out, self.temperature as i64);
        push_str_bytes(&mut out, ",\"timestamp\":");
        push_dec_u64(&mut out, self.timestamp);
        push_str_bytes(&mut out, "}");
        assert(out@ =~= hb_signable_spec(self));
        out
    }

    /// The canonical bytes of the heartbeat with its signature included.
    pub fn full_bytes(&self) -> (r: Vec<u8>)
        ensures
            r@ == hb_full_spec(self),
    {
        let mut out: Vec<u8> = Vec::new();
        push_str_bytes(&mut out, "{\"device_pubkey\":\"");
        push_escaped_string(&mut out, &self.device_pubkey);
        push_str_bytes(&mut out, "\",\"heart_rate\":");
        push_dec_u64(&mut out, self.heart_rate as u64);
        push_str_bytes(&mut out, ",\"motion\":{\"x\":");
        push_dec_i64(&mut out, self.motion.x);
        push_str_bytes(&mut out, ",\"y\":");
        push_dec_i64(&mut out, self.motion.y);
        push_str_bytes(&mut out, ",\"z\":");
        push_dec_i64(&mut out, self.motion.z);
        push_str_bytes(&mut out, "},\"signature\":\"");
        push_escaped_string(&mut out, &self.signature);
        push_str_bytes(&mut out, "\",\"temperature\":");
        push_dec_i64(&mut out, self.temperature as i64);
        push_str_bytes(&mut out, ",\"timestamp\":");
        push_dec_u64(&mut out, self.timestamp);
        push_str_bytes(&mut out, "}");
        assert(out@ =~= hb_full_spec(self));
        out
    }
}

/// The logistic heart-rate normalisation `1/(1 + exp(-0.04 (hr - 100)))`,
/// rounded to micro-units, tabulated over the protocol's valid 30-220 BPM
/// range (rates outside it are clamped to the nearest end).  Each entry is
/// the logistic value to within half a micro-unit.
#[verifier::opaque]
pub open spec fn hr_norm_spec(hr: u16) -> int {
    let h = clamp_hr(hr);
    if h == 30 {
        57324
    } else if h == 31 {
        59524
    } else if h == 32 {
        61803
    } else if h == 33 {
        64164
    } else if h == 34 {
        66608
    } else if h == 35 {
        69138
    } else if h == 36 {
        71758
    } else if h == 37 {
        74468
    } else if h == 38 {
        77272
    } else if h == 39 {
        80173
    } else if h == 40 {
        83173
    } else if h == 41 {
        86274
    } else if h == 42 {
        89480
    } else if h == 43 {
        92793
    } else if h == 44 {
        96216
    } else if h == 45 {
        99750
    } else if h == 46 {
        103400
    } else if h == 47 {
        107168
    } else if h == 48 {
        111056
    } else if h == 49 {
        115067
    } else if h == 50 {
        119203
    } else if h == 51 {
        123467
    } else if h == 52 {
        127862
    } else if h == 53 {
        132389
    } else if h == 54 {
        137051
    } else if h == 55 {
        141851
    } else if h == 56 {
        146790
    } else if h == 57 {
        151871
    } else if h == 58 {
        157095
    } else if h == 59 {
        162465
    } else if h == 60 {
        167982
    } else if h == 61 {
        173647
    } else if h == 62 {
        179462
    } else if h == 63 {
        185427
    } else if h == 64 {
        191545
    } else if h == 65 {
        197816
    } else if h == 66 {
        204240
    } else if h == 67 {
        210818
    } else if h == 68 {
        217550
    } else if h == 69 {
        224436
    } else if h == 70 {
        231475
    } else if h == 71 {
        238667
    } else if h == 72 {
        246011
    } else if h == 73 {
        253506
    } else if h == 74 {
        261150
    } else if h == 75 {
        268941
    } else if h == 76 {
        276878
    } else if h == 77 {
        284958
    } else if h == 78 {
        293178
    } else if h == 79 {
        301535
    } else if h == 80 {
        310026
    } else if h == 81 {
        318646
    } else if h == 82 {
        327393
    } else if h == 83 {
        336261
    } else if h == 84 {
        345247
    } else if h == 85 {
        354344
    } else if h == 86 {
        363547
    } else if h == 87 {
        372852
    } else if h == 88 {
        382252
    } else if h == 89 {
        391741
    } else if h == 90 {
        401312
    } else if h == 91 {
        410960
    } else if h == 92 {
        420676
    } else if h == 93 {
        430454
    } else if h == 94 {
        440286
    } else if h == 95 {
        450166
    } else if h == 96 {
        460085
    } else if h == 97 {
        470036
    } else if h == 98 {
        480011
    } else if h == 99 {
        490001
    } else if h == 100 {
        500000
    } else if h == 101 {
        509999
    } else if h == 102 {
        519989
    } else if h == 103 {
        529964
    } else if h == 104 {
        539915
    } else if h == 105 {
        549834
    } else if h == 106 {
        559714
    } else if h == 107 {
        569546
    } else if h == 108 {
        579324
    } else if h == 109 {
        589040
    } else if h == 110 {
        598688
    } else if h == 111 {
        608259
    } else if h == 112 {
        617748
    } else if h == 113 {
        627148
    } else if h == 114 {
        636453
    } else if h == 115 {
        645656
    } else if h == 116 {
        654753
    } else if h == 117 {
        663739
    } else if h == 118 {
        672607
    } else if h == 119 {
        681354
    } else if h == 120 {
        689974
    } else if h == 121 {
        698465
    } else if h == 122 {
        706822
    } else if h == 123 {
        715042
    } else if h == 124 {
        723122
    } else if h == 125 {
        731059
    } else if h == 126 {
        738850
    } else if h == 127 {
        746494
    } else if h == 128 {
        753989
    } else if h == 129 {
        761333
    } else if h == 130 {
        768525
    } else if h == 131 {
        775564
    } else if h == 132 {
        782450
    } else if h == 133 {
        789182
    } else if h == 134 {
        795760
    } else if h == 135 {
        802184
    } else if h == 136 {
        808455
    } else if h == 137 {
        814573
    } else if h == 138 {
        820538
    } else if h == 139 {
        826353
    } else if h == 140 {
        832018
    } else if h == 141 {
        837535
    } else if h == 142 {
        842905
    } else if h == 143 {
        848129
    } else if h == 144 {
        853210
    } else if h == 145 {
        858149
    } else if h == 146 {
        862949
    } else if h == 147 {
        867611
    } else if h == 148 {
        872138
    } else if h == 149 {
        876533
    } else if h == 150 {
        880797
    } else if h == 151 {
        884933
    } else if h == 152 {
        888944
    } else if h == 153 {
        892832
    } else if h == 154 {
        896600
    } else if h == 155 {
        900250
    } else if h == 156 {
        903784
    } else if h == 157 {
        907207
    } else if h == 158 {
        910520
    } else if h == 159 {
        913726
    } else if h == 160 {
        916827
    } else if h == 161 {
        919827
    } else if h == 162 {
        922728
    } else if h == 163 {
        925532
    } else if h == 164 {
        928242
    } else if h == 165 {
        930862
    } else if h == 166 {
        933392
    } else if h == 167 {
        935836
    } else if h == 168 {
        938197
    } else if h == 169 {
        940476
    } else if h == 170 {
        942676
    } else if h == 171 {
        944799
    } else if h == 172 {
        946849
    } else if h == 173 {
        948826
    } else if h == 174 {
        950734
    } else if h == 175 {
        952574
    } else if h == 176 {
        954349
    } else if h == 177 {
        956060
    } else if h == 178 {
        957710
    } else if h == 179 {
        959301
    } else if h == 180 {
        960834
    } else if h == 181 {
        962312
    } else if h == 182 {
        963736
    } else if h == 183 {
        965109
    } else if h == 184 {
        966431
    } else if h == 185 {
        967705
    } else if h == 186 {
        968932
    } else if h == 187 {
        970113
    } else if h == 188 {
        971252
    } else if h == 189 {
        972348
    } else if h == 190 {
        973403
    } else if h == 191 {
        974419
    } else if h == 192 {
        975398
    } else if h == 193 {
        976339
    } else if h == 194 {
        977246
    } else if h == 195 {
        978119
    } else if h == 196 {
        978959
    } else if h == 197 {
        979767
    } else if h == 198 {
        980545
    } else if h == 199 {
        981293
    } else if h == 200 {
        982014
    } else if h == 201 {
        982707
    } else if h == 202 {
        983374
    } else if h == 203 {
        984015
    } else if h == 204 {
        984632
    } else if h == 205 {
        985226
    } else if h == 206 {
        985797
    } else if h == 207 {
        986346
    } else if h == 208 {
        986875
    } else if h == 209 {
        987383
    } else if h == 210 {
        987872
    } else if h == 211 {
        988342
    } else if h == 212 {
        988794
    } else if h == 213 {
        989228
    } else if h == 214 {
        989646
    } else if h == 215 {
        990048
    } else if h == 216 {
        990435
    } else if h == 217 {
        990806
    } else if h == 218 {
        991164
    } else if h == 219 {
        991507
    } else {
        991837
    }
}

/// Heart rate clamped to the protocol range.
pub open spec fn clamp_hr(hr: u16) -> u16 {
    if hr < 30 {
        30
    } else if hr > 220 {
        220
    } else {
        hr
    }
}

/// Normalised heart rate in micro-units.
#[verifier::rlimit(100)]
#[verifier::spinoff_prover]
pub fn hr_norm(hr: u16) -> (r: u64)
    ensures
        r as int == hr_norm_spec(hr),
        r <= SCALE,
{
    proof {
        reveal(hr_norm_spec);
    }
    let h: u16 = if hr < 30 {
        30
    } else if hr > 220 {
        220
    } else {
        hr
    };
    let v: u64 =
    if h == 30 {
        57324
    } else if h == 31 {
        59524
    } else if h == 32 {
        61803
    } else if h == 33 {
        64164
    } else if h == 34 {
        66608
    } else if h == 35 {
        69138
    } else if h == 36 {
        71758
    } else if h == 37 {
        74468
    } else if h == 38 {
        77272
    } else if h == 39 {
        80173
    } else if h == 40 {
        83173
    } else if h == 41 {
        86274
    } else if h == 42 {
        89480
    } else if h == 43 {
        92793
    } else if h == 44 {
        96216
    } else if h == 45 {
        99750
    } else if h == 46 {
        103400
    } else if h == 47 {
        107168
    } else if h == 48 {
        111056
    } else if h == 49 {
        115067
    } else if h == 50 {
        119203
    } else if h == 51 {
        123467
    } else if h == 52 {
        127862
    } else if h == 53 {
        132389
    } else if h == 54 {
        137051
    } else if h == 55 {
        141851
    } else if h == 56 {
        146790
    } else if h == 57 {
        151871
    } else if h == 58 {
        157095
    } else if h == 59 {
        162465
    } else if h == 60 {
        167982
    } else if h == 61 {
        173647
    } else if h == 62 {
        179462
    } else if h == 63 {
        185427
    } else if h == 64 {
        191545
    } else if h == 65 {
        197816
    } else if h == 66 {
        204240
    } else if h == 67 {
        210818
    } else if h == 68 {
        217550
    } else if h == 69 {
        224436
    } else if h == 70 {
        231475
    } else if h == 71 {
        238667
    } else if h == 72 {
        246011
    } else if h == 73 {
        253506
    } else if h == 74 {
        261150
    } else if h == 75 {
        268941
    } else if h == 76 {
        276878
    } else if h == 77 {
        284958
    } else if h == 78 {
        293178
    } else if h == 79 {
        301535
    } else if h == 80 {
        310026
    } else if h == 81 {
        318646
    } else if h == 82 {
        327393
    } else if h == 83 {
        336261
    } else if h == 84 {
        345247
    } else if h == 85 {
        354344
    } else if h == 86 {
        363547
    } else if h == 87 {
        372852
    } else if h == 88 {
        382252
    } else if h == 89 {
        391741
    } else if h == 90 {
        401312
    } else if h == 91 {
        410960
    } else if h == 92 {
        420676
    } else if h == 93 {
        430454
    } else if h == 94 {
        440286
    } else if h == 95 {
        450166
    } else if h == 96 {
        460085
    } else if h == 97 {
        470036
    } else if h == 98 {
        480011
    } else if h == 99 {
        490001
    } else if h == 100 {
        500000
    } else if h == 101 {
        509999
    } else if h == 102 {
        519989
    } else if h == 103 {
        529964
    } else if h == 104 {
        539915
    } else if h == 105 {
        549834
    } else if h == 106 {
        559714
    } else if h == 107 {
        569546
    } else if h == 108 {
        579324
    } else if h == 109 {
        589040
    } else if h == 110 {
        598688
    } else if h == 111 {
        608259
    } else if h == 112 {
        617748
    } else if h == 113 {
        627148
    } else if h == 114 {
        636453
    } else if h == 115 {
        645656
    } else if h == 116 {
        654753
    } else if h == 117 {
        663739
    } else if h == 118 {
        672607
    } else if h == 119 {
        681354
    } else if h == 120 {
        689974
    } else if h == 121 {
        698465
    } else if h == 122 {
        706822
    } else if h == 123 {
        715042
    } else if h == 124 {
        723122
    } else if h == 125 {
        731059
    } else if h == 126 {
        738850
    } else if h == 127 {
        746494
    } else if h == 128 {
        753989
    } else if h == 129 {
        761333
    } else if h == 130 {
        768525
    } else if h == 131 {
        775564
    } else if h == 132 {
        782450
    } else if h == 133 {
        789182
    } else if h == 134 {
        795760
    } else if h == 135 {
        802184
    } else if h == 136 {
        808455
    } else if h == 137 {
        814573
    } else if h == 138 {
        820538
    } else if h == 139 {
        826353
    } else if h == 140 {
        832018
    } else if h == 141 {
        837535
    } else if h == 142 {
        842905
    } else if h == 143 {
        848129
    } else if h == 144 {
        853210
    } else if h == 145 {
        858149
    } else if h == 146 {
        862949
    } else if h == 147 {
        867611
    } else if h == 148 {
        872138
    } else if h == 149 {
        876533
    } else if h == 150 {
        880797
    } else if h == 151 {
        884933
    } else if h == 152 {
        888944
    } else if h == 153 {
        892832
    } else if h == 154 {
        896600
    } else if h == 155 {
        900250
    } else if h == 156 {
        903784
    } else if h == 157 {
        907207
    } else if h == 158 {
        910520
    } else if h == 159 {
        913726
    } else if h == 160 {
        916827
    } else if h == 161 {
        919827
    } else if h == 162 {
        922728
    } else if h == 163 {
        925532
    } else if h == 164 {
        928242
    } else if h == 165 {
        930862
    } else if h == 166 {
        933392
    } else if h == 167 {
        935836
    } else if h == 168 {
        938197
    } else if h == 169 {
        940476
    } else if h == 170 {
        942676
    } else if h == 171 {
        944799
    } else if h == 172 {
        946849
    } else if h == 173 {
        948826
    } else if h == 174 {
        950734
    } else if h == 175 {
        952574
    } else if h == 176 {
        954349
    } else if h == 177 {
        956060
    } else if h == 178 {
        957710
    } else if h == 179 {
        959301
    } else if h == 180 {
        960834
    } else if h == 181 {
        962312
    } else if h == 182 {
        963736
    } else if h == 183 {
        965109
    } else if h == 184 {
        966431
    } else if h == 185 {
        967705
    } else if h == 186 {
        968932
    } else if h == 187 {
        970113
    } else if h == 188 {
        971252
    } else if h == 189 {
        972348
    } else if h == 190 {
        973403
    } else if h == 191 {
        974419
    } else if h == 192 {
        975398
    } else if h == 193 {
        976339
    } else if h == 194 {
        977246
    } else if h == 195 {
        978119
    } else if h == 196 {
        978959
    } else if h == 197 {
        979767
    } else if h == 198 {
        980545
    } else if h == 199 {
        981293
    } else if h == 200 {
        982014
    } else if h == 201 {
        982707
    } else if h == 202 {
        983374
    } else if h == 203 {
        984015
    } else if h == 204 {
        984632
    } else if h == 205 {
        985226
    } else if h == 206 {
        985797
    } else if h == 207 {
        986346
    } else if h == 208 {
        986875
    } else if h == 209 {
        987383
    } else if h == 210 {
        987872
    } else if h == 211 {
        988342
    } else if h == 212 {
        988794
    } else if h == 213 {
        989228
    } else if h == 214 {
        989646
    } else if h == 215 {
        990048
    } else if h == 216 {
        990435
    } else if h == 217 {
        990806
    } else if h == 218 {
        991164
    } else if h == 219 {
        991507
    } else {
        991837
    };
    v
}

/// The bounded weight of one heartbeat, in micro-units:
/// `0.4 * hr_norm + 0.3 * motion_norm + 0.3 * continuity`, each part already
/// normalised to `[0, SCALE]`.
pub open spec fn weight_spec(hr_n: int, motion_magnitude: int, continuity: int) -> int {
    (4 * hr_n + 3 * motion_norm_spec(motion_magnitude) + 3 * clamp_spec(continuity)) / 10
}

/// Motion magnitude normalised to `[0, SCALE]`: `min(|m| / 2, 1)` in g.
pub open spec fn motion_norm_spec(magnitude: int) -> int {
    clamp_spec(magnitude / 2)
}

/// Clamp to `[0, SCALE]` (inputs are already non-negative).
pub open spec fn clamp_spec(v: int) -> int {
    if v > SCALE {
        SCALE as int
    } else {
        v
    }
}

impl Heartbeat {
    /// The weight this heartbeat contributes given a continuity factor in
    /// micro-units; always in `[0, SCALE]`.
    pub fn weight_with_continuity(&self, continuity: u64) -> (r: u64)
        ensures
            r as int == weight_spec(
                hr_norm_spec(self.heart_rate),
                self.spec_magnitude(),
                continuity as int,
            ),
            r <= SCALE,
    {
        let hr_n: u64 = hr_norm(self.heart_rate);
        let mag: u64 = self.magnitude_eq();
        let motion_n: u64 = crate::clamp_to_scale(mag / 2);
        let cont_n: u64 = crate::clamp_to_scale(continuity);
        (4 * hr_n + 3 * motion_n + 3 * cont_n) / 10
    }

    /// The weight assuming full continuity.
    pub fn weight(&self) -> (r: u64)
        ensures
            r as int == weight_spec(
                hr_norm_spec(self.heart_rate),
                self.spec_magnitude(),
                SCALE as int,
            ),
            r <= SCALE,
    {
        self.weight_with_continuity(SCALE)
    }

    /// The rounded-down magnitude of the motion vector as a mathematical
    /// value: the unique `m` with `m^2 <= |motion|^2 < (m+1)^2`.
    pub open spec fn spec_magnitude(&self) -> int {
        choose|m: int| 0 <= m && #[trigger] sq(m) <= self.motion.magnitude_sq()
            && self.motion.magnitude_sq() < sq(m + 1)
    }

    /// The motion magnitude, proved to be the value `spec_magnitude` names.
    pub fn magnitude_eq(&self) -> (r: u64)
        ensures
            r as int == self.spec_magnitude(),
    {
        let r: u64 = self.motion.magnitude();
        proof {
            let m = self.spec_magnitude();
            assert(0 <= r as int && sq(r as int) <= self.motion.magnitude_sq()
                && self.motion.magnitude_sq() < sq(r as int + 1));
            lemma_isqrt_unique(self.motion.magnitude_sq(), r as int, m);
        }
        r
    }
}

proof fn lemma_isqrt_unique(n: int, a: int, b: int)
    requires
        0 <= a,
        sq(a) <= n,
        n < sq(a + 1),
        b == choose|m: int| 0 <= m && #[trigger] sq(m) <= n && n < sq(m + 1),
    ensures
        a == b,
{
    assert(0 <= a && sq(a) <= n && n < sq(a + 1));
    assert(0 <= b && sq(b) <= n && n < sq(b + 1));
    if a < b {
        assert(sq(a + 1) <= sq(b)) by (nonlinear_arith)
            requires
                0 <= a,
                a + 1 <= b,
        ;
    }
    if b < a {
        assert(sq(b + 1) <= sq(a)) by (nonlinear_arith)
            requires
                0 <= b,
                b + 1 <= a,
        ;
    }
}

/// A pulse-backed transaction, amount in micro-tokens.
#[derive(Debug, Clone)]
pub struct Transaction {
    /// Unique transaction id.
    pub tx_id: String,
    /// Sender's public key, hex-encoded.
    pub sender_pubkey: String,
    /// Recipient's public key, hex-encoded.
    pub recipient_pubkey: String,
    /// Amount in micro-tokens.
    pub amount: u64,
    /// Unix timestamp in milliseconds.
    pub timestamp: u64,
    /// The sender's current heartbeat signature, proving life.
    pub heartbeat_signature: String,
    /// Transaction signature, hex-encoded.
    pub signature: String,
}

/// The canonical signable bytes of a transaction, keys sorted, signature
/// excluded.
pub open spec fn tx_signable_spec(tx: &Transaction) -> Seq<u8> {
    lit("{\"amount\":") + dec_bytes(tx.amount as nat) + lit(",\"heartbeat_signature\":\"")
        + escaped(utf8(tx.heartbeat_signature@)) + lit("\",\"recipient_pubkey\":\"") + escaped(
        utf8(tx.recipient_pubkey@),
    ) + lit("\",\"sender_pubkey\":\"") + escaped(utf8(tx.sender_pubkey@)) + lit("\",\"timestamp\":")
        + dec_bytes(tx.timestamp as nat) + lit(",\"tx_id\":\"") + escaped(utf8(tx.tx_id@)) + lit(
        "\"}",
    )
}

/// The canonical bytes of a transaction with its signature included.
pub open spec fn tx_full_spec(tx: &Transaction) -> Seq<u8> {
    lit("{\"amount\":") + dec_bytes(tx.amount as nat) + lit(",\"heartbeat_signature\":\"")
        + escaped(utf8(tx.heartbeat_signature@)) + lit("\",\"recipient_pubkey\":\"") + escaped(
        utf8(tx.recipient_pubkey@),
    ) + lit("\",\"sender_pubkey\":\"") + escaped(utf8(tx.sender_pubkey@)) + lit(
        "\",\"signature\":\"",
    ) + escaped(utf8(tx.signature@)) + lit("\",\"timestamp\":") + dec_bytes(tx.timestamp as nat)
        + lit(",\"tx_id\":\"") + escaped(utf8(tx.tx_id@)) + lit("\"}")
}

impl Transaction {
    /// An equal copy, with a specification (unlike the derived `clone`).
    pub fn duplicate(&self) -> (r: Transaction)
        ensures
            r == *self,
    {
        Transaction {
            tx_id: self.tx_id.clone(),
            sender_pubkey: self.sender_pubkey.clone(),
            recipient_pubkey: self.recipient_pubkey.clone(),
            amount: self.amount,
            timestamp: self.timestamp,
            heartbeat_signature: self.heartbeat_signature.clone(),
            signature: self.signature.clone(),
        }
    }

    /// The signable portion of the transaction, signature excluded, with
    /// lexicographically sorted keys.
    pub fn signable_bytes(&self) -> (r: Vec<u8>)
        ensures
            r@ == tx_signable_spec(self),
    {
        let mut out: Vec<u8> = Vec::new();
        push_str_bytes(&mut out, "{\"amount\":");
        push_dec_u64(&mut out, self.amount);
        push_str_bytes(&mut out, ",\"heartbeat_signature\":\"");
        push_escaped_string(&mut out, &self.heartbeat_signature);
        push_str_bytes(&mut out, "\",\"recipient_pubkey\":\"");
        push_escaped_string(&mut out, &self.recipient_pubkey);
        push_str_bytes(&mut out, "\",\"sender_pubkey\":\"");
        push_escaped_string(&mut out, &self.sender_pubkey);
        push_str_bytes(&mut out, "\",\"timestamp\":");
        push_dec_u64(&mut out, self.timestamp);
        push_str_bytes(&mut out, ",\"tx_id\":\"");
        push_escaped_string(&mut out, &self.tx_id);
        push_str_bytes(&mut out, "\"}");
        assert(out@ =~= tx_signable_spec(self));
        out
    }

    /// The canonical bytes of the transaction with its signature included.
    pub fn full_bytes(&self) -> (r: Vec<u8>)
        ensures
            r@ == tx_full_spec(self),
    {
        let mut out: Vec<u8> = Vec::new();
        push_str_bytes(&mut out, "{\"amount\":");
        push_dec_u64(&mut out, self.amount);
        push_str_bytes(&mut out, ",\"heartbeat_signature\":\"");
        push_escaped_string(&mut out, &self.heartbeat_signature);
        push_str_bytes(&mut out, "\",\"recipient_pubkey\":\"");
        push_escaped_string(&mut out, &self.recipient_pubkey);
        push_str_bytes(&mut out, "\",\"sender_pubkey\":\"");
        push_escaped_string(&mut out, &self.sender_pubkey);
        push_str_bytes(&mut out, "\",\"signature\":\"");
        push_escaped_string(&mut out, &self.signature);
        push_str_bytes(&mut out, "\",\"timestamp\":");
        push_dec_u64(&mut out, self.timestamp);
        push_str_bytes(&mut out, ",\"tx_id\":\"");
        push_escaped_string(&mut out, &self.tx_id);
        push_str_bytes(&mut out, "\"}");
        assert(out@ =~= tx_full_spec(self));
        out
    }
}

/// A block in the pulse chain.
#[derive(Debug, Clone)]
pub struct PulseBlock {
    /// Block height.
    pub index: u64,
    /// Unix timestamp in milliseconds.
    pub timestamp: u64,
    /// Hex hash of the previous block.
    pub previous_hash: String,
    /// The verified heartbeats embedded in this block.
    pub heartbeats: Vec<Heartbeat>,
    /// The transactions settled by this block.
    pub transactions: Vec<Transaction>,
    /// Number of live participants.
    pub n_live: usize,
    /// Total weighted contribution, micro-units.
    pub total_weight: u64,
    /// Security score `S`: equal to the total weight.
    pub security: u64,
    /// Hex digest of the aggregated biometric entropy pool.
    pub bio_entropy: String,
    /// Hex hash of this block's canonical bytes.
    pub block_hash: String,
}

/// The canonical bytes of a heartbeat array.
pub open spec fn hb_array_spec(s: Seq<Heartbeat>) -> Seq<u8>
    decreases s.len(),
{
    if s.len() == 0 {
        Seq::empty()
    } else if s.len() == 1 {
        hb_full_spec(&s[0])
    } else {
        hb_array_spec(s.drop_last()) + lit(",") + hb_full_spec(&s.last())
    }
}

/// The canonical bytes of a transaction array.
pub open spec fn tx_array_spec(s: Seq<Transaction>) -> Seq<u8>
    decreases s.len(),
{
    if s.len() == 0 {
        Seq::empty()
    } else if s.len() == 1 {
        tx_full_spec(&s[0])
    } else {
        tx_array_spec(s.drop_last()) + lit(",") + tx_full_spec(&s.last())
    }
}

/// The canonical hashable bytes of a block: every field but the hash itself,
/// keys sorted lexicographically.
#[verifier::opaque]
pub open spec fn block_hashable_spec(b: &PulseBlock) -> Seq<u8> {
    lit("{\"bio_entropy\":\"") + escaped(utf8(b.bio_entropy@)) + lit("\",\"heartbeats\":[")
        + hb_array_spec(b.heartbeats@) + lit("],\"index\":") + dec_bytes(b.index as nat) + lit(
        ",\"n_live\":",
    ) + dec_bytes(b.n_live as nat) + lit(",\"previous_hash\":\"") + escaped(utf8(b.previous_hash@))
        + lit("\",\"security\":") + dec_bytes(b.security as nat) + lit(",\"timestamp\":")
        + dec_bytes(b.timestamp as nat) + lit(",\"total_weight\":") + dec_bytes(
        b.total_weight as nat,
    ) + lit(",\"transactions\":[") + tx_array_spec(b.transactions@) + lit("]}")
}

/// The block hash the canonical bytes dictate: hex of their SHA-256 digest.
pub open spec fn block_hash_spec(b: &PulseBlock) -> Seq<char> {
    hex_of(sha256_of(block_hashable_spec(b)))
}

/// The canonical hashable bytes ignore the `block_hash` field, so writing
/// the computed hash into a block does not change what the block hashes to.
pub proof fn lemma_hashable_ignores_hash(a: &PulseBlock, b: &PulseBlock)
    requires
        a.index == b.index,
        a.timestamp == b.timestamp,
        a.previous_hash@ == b.previous_hash@,
        a.heartbeats@ == b.heartbeats@,
        a.transactions@ == b.transactions@,
        a.n_live == b.n_live,
        a.total_weight == b.total_weight,
        a.security == b.security,
        a.bio_entropy@ == b.bio_entropy@,
    ensures
        block_hashable_spec(a) == block_hashable_spec(b),
        block_hash_spec(a) == block_hash_spec(b),
{
    reveal(block_hashable_spec);
}

impl PulseBlock {
    /// A copy equal field by field; the heartbeat and transaction vectors
    /// are equal as sequences.
    pub fn duplicate(&self) -> (r: PulseBlock)
        ensures
            r.index == self.index,
            r.timestamp == self.timestamp,
            r.previous_hash == self.previous_hash,
            r.heartbeats@ == self.heartbeats@,
            r.transactions@ == self.transactions@,
            r.n_live == self.n_live,
            r.total_weight == self.total_weight,
            r.security == self.security,
            r.bio_entropy == self.bio_entropy,
            r.block_hash == self.block_hash,
    {
        let mut heartbeats: Vec<Heartbeat> = Vec::new();
        for i in 0..self.heartbeats.len()
            invariant
                heartbeats@ =~= self.heartbeats@.take(i as int),
        {
            heartbeats.push(self.heartbeats[i].duplicate());
            assert(heartbeats@ =~= self.heartbeats@.take(i + 1));
        }
        assert(heartbeats@ =~= self.heartbeats@);
        let mut transactions: Vec<Transaction> = Vec::new();
        for i in 0..self.transactions.len()
            invariant
                transactions@ =~= self.transactions@.take(i as int),
        {
            transactions.push(self.transactions[i].duplicate());
            assert(transactions@ =~= self.transactions@.take(i + 1));
        }
        assert(transactions@ =~= self.transactions@);
        let r = PulseBlock {
            index: self.index,
            timestamp: self.timestamp,
            previous_hash: self.previous_hash.clone(),
            heartbeats,
            transactions,
            n_live: self.n_live,
            total_weight: self.total_weight,
            security: self.security,
            bio_entropy: self.bio_entropy.clone(),
            block_hash: self.block_hash.clone(),
        };
        r
    }

    /// The canonical hashable bytes of this block.
    pub fn hashable_bytes(&self) -> (r: Vec<u8>)
        ensures
            r@ == block_hashable_spec(self),
    {
        let mut out: Vec<u8> = Vec::new();
        push_str_bytes(&mut out, "{\"bio_entropy\":\"");
        push_escaped_string(&mut out, &self.bio_entropy);
        push_str_bytes(&mut out, "\",\"heartbeats\":[");
        let ghost mid0 = out@;
        for i in 0..self.heartbeats.len()
            invariant
                out@ == mid0 + hb_array_spec(self.heartbeats@.take(i as int)),
        {
            if i > 0 {
                push_str_bytes(&mut out, ",");
            }
            let mut piece: Vec<u8> = self.heartbeats[i].full_bytes();
            out.append(&mut piece);
            proof {
                assert(self.heartbeats@.take(i + 1).drop_last() =~= self.heartbeats@.take(i as int));
                assert(self.heartbeats@.take(i + 1).last() == self.heartbeats@[i as int]);
                assert(out@ =~= mid0 + hb_array_spec(self.heartbeats@.take(i + 1)));
            }
        }
        proof {
            assert(self.heartbeats@.take(self.heartbeats@.len() as int) =~= self.heartbeats@);
        }
        push_str_bytes(&mut out, "],\"index\":");
        push_dec_u64(&mut out, self.index);
        push_str_bytes(&mut out, ",\"n_live\":");
        push_dec_u64(&mut out, self.n_live as u64);
        push_str_bytes(&mut out, ",\"previous_hash\":\"");
        push_escaped_string(&mut out, &self.previous_hash);
        push_str_bytes(&mut out, "\",\"security\":");
        push_dec_u64(&mut out, self.security);
        push_str_bytes(&mut out, ",\"timestamp\":");
        push_dec_u64(&mut out, self.timestamp);
        push_str_bytes(&mut out, ",\"total_weight\":");
        push_dec_u64(&mut out, self.total_weight);
        push_str_bytes(&mut out, ",\"transactions\":[");
        let ghost mid1 = out@;
        for i in 0..self.transactions.len()
            invariant
                out@ == mid1 + tx_array_spec(self.transactions@.take(i as int)),
        {
            if i > 0 {
                push_str_bytes(&mut out, ",");
            }
            let mut piece: Vec<u8> = self.transactions[i].full_bytes();
            out.append(&mut piece);
            proof {
                assert(self.transactions@.take(i + 1).drop_last() =~= self.transactions@.take(
                    i as int,
                ));
                assert(self.transactions@.take(i + 1).last() == self.transactions@[i as int]);
                assert(out@ =~= mid1 + tx_array_spec(self.transactions@.take(i + 1)));
            }
        }
        proof {
            assert(self.transactions@.take(self.transactions@.len() as int)
                =~= self.transactions@);
        }
        push_str_bytes(&mut out, "]}");
        proof {
            reveal(block_hashable_spec);
        }
        assert(out@ =~= block_hashable_spec(self));
        out
    }

    /// Compute the block hash: lowercase hex of the SHA-256 digest of the
    /// canonical hashable bytes.
    pub fn compute_hash(&self) -> (r: String)
        ensures
            r@ == block_hash_spec(self),
    {
        let bytes = self.hashable_bytes();
        hash_sha256(bytes.as_slice())
    }
}

/// Account balance and participation state; token quantities in micro-units.
#[derive(Debug, Clone)]
pub struct Account {
    /// The account's public key, hex-encoded.
    pub pubkey: String,
    /// Spendable balance, micro-tokens.
    pub balance: u128,
    /// Timestamp of the account's last rewarded heartbeat.
    pub last_heartbeat: u64,
    /// Total micro-tokens ever earned from block rewards.
    pub total_earned: u128,
    /// Number of blocks this account's heartbeats appeared in.
    pub blocks_participated: u64,
}

impl Account {
    /// An equal copy, with a specification (unlike the derived `clone`).
    pub fn duplicate(&self) -> (r: Account)
        ensures
            r == *self,
    {
        Account {
            pubkey: self.pubkey.clone(),
            balance: self.balance,
            last_heartbeat: self.last_heartbeat,
            total_earned: self.total_earned,
            blocks_participated: self.blocks_participated,
        }
    }
}

impl Default for Account {
    /// The empty account: no key, nothing earned.
    fn default() -> (r: Account)
        ensures
            r.pubkey@ == Seq::<char>::empty(),
            r.balance == 0,
            r.last_heartbeat == 0,
            r.total_earned == 0,
            r.blocks_participated == 0,
    {
        Account {
            pubkey: String::new(),
            balance: 0,
            last_heartbeat: 0,
            total_earned: 0,
            blocks_participated: 0,
        }
    }
}

/// Network-wide statistics, fixed-point micro-units throughout.
#[derive(Debug, Clone)]
pub struct NetworkStats {
    /// Number of blocks in the chain, genesis included.
    pub chain_length: u64,
    /// Total micro-tokens minted.
    pub total_minted: u128,
    /// Number of accounts with state.
    pub active_accounts: usize,
    /// Transactions per second, micro-units; informational.
    pub current_tps: u64,
    /// Configured block interval in milliseconds.
    pub avg_block_time: u64,
    /// Sum of all block security scores.
    pub total_security: u128,
    /// The block reward at the current height, micro-tokens.
    pub current_block_reward: u64,
    /// How many halvings have happened.
    pub halving_epoch: u64,
    /// Cumulative chain weight, the fork-resolution criterion.
    pub cumulative_weight: u128,
    /// Reward divided by total supply, micro-units; zero before any mint.
    pub inflation_rate: u64,
}

} // verus!
