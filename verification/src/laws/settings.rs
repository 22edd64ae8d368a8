//! What a configuration asks for.
use vstd::prelude::*;

use crate::config::{
    self, Config, ConfigError, EncodeConfig, LoadError, LogConfig, OutputConfig, OutputMode, Place,
    Span,
};
use crate::ratio::Ratio;
use crate::utf8;

verus! {

/// A ratio is greater than zero where its bits, as a number, are above those of zero and at
/// most those of infinity.
pub proof fn law_positive_ratios(r: Ratio)
    ensures
        r.is_positive() <==> 0 < r.bits <= 0x7ff0_0000_0000_0000u64,
{
    let b = r.bits as int;
    let q = b / 0x10_0000_0000_0000;
    assert(b == q * 0x10_0000_0000_0000 + b % 0x10_0000_0000_0000);
    if b < 0x8000_0000_0000_0000 {
        assert(0 <= q < 2048);
        assert(q % 2048 == q);
    }
}

/// A size exceeds a finite ratio of another where it is greater than that times the number
/// that the bits stand for: with the exponent field `e` and the fraction field `f`, the
/// number `(2^52 + f) * 2^(e - 1075)`, or `f * 2^-1074` where `e` is zero.
pub proof fn law_what_exceeds_a_ratio(r: Ratio, original: u64, size: u64)
    requires
        0 < r.bits <= 0x7ff0_0000_0000_0000u64,
    ensures
        ({
            let e = r.bits as int / 0x10_0000_0000_0000;
            let f = r.bits as int % 0x10_0000_0000_0000;
            let (m, k) = if e == 0 {
                (f, 0)
            } else {
                (0x10_0000_0000_0000 + f, e - 1)
            };
            r.is_exceeded(original, size) <==> r.bits < 0x7ff0_0000_0000_0000u64 && size * vstd::arithmetic::power2::pow2(
                1074,
            ) > original * m * vstd::arithmetic::power2::pow2(k as nat)
        }),
{
    let b = r.bits as int;
    let e = b / 0x10_0000_0000_0000;
    let f = b % 0x10_0000_0000_0000;
    assert(b == e * 0x10_0000_0000_0000 + f);
    assert(0 <= e <= 2047);
    assert(e % 2048 == e);
    let (m, k) = if e == 0 {
        (f, 0)
    } else {
        (0x10_0000_0000_0000 + f, e - 1)
    };
    if r.bits < 0x7ff0_0000_0000_0000u64 {
        assert(e < 2047);
        let scale = k - 1074;
        assert(r.scale() == scale);
        assert(r.mantissa() == m);
        let product = original * m;
        if scale >= 0 {
            let p = vstd::arithmetic::power2::pow2(scale as nat) as int;
            let c = vstd::arithmetic::power2::pow2(1074) as int;
            vstd::arithmetic::power2::lemma_pow2_adds(scale as nat, 1074);
            vstd::arithmetic::power2::lemma_pow2_pos(1074);
            assert(product * (p * c) == (product * p) * c) by (nonlinear_arith);
            lemma_times(size as int, product * p, c);
        } else {
            let p = vstd::arithmetic::power2::pow2((-scale) as nat) as int;
            let c = vstd::arithmetic::power2::pow2(k as nat) as int;
            vstd::arithmetic::power2::lemma_pow2_adds((-scale) as nat, k as nat);
            vstd::arithmetic::power2::lemma_pow2_pos(k as nat);
            assert(size * (p * c) == (size * p) * c) by (nonlinear_arith);
            lemma_times(size * p, product, c);
        }
    }
}

proof fn lemma_times(a: int, b: int, c: int)
    by (nonlinear_arith)
    requires
        c > 0,
    ensures
        a > b <==> a * c > b * c,
{
}

/// A configuration is valid where the bit depth is 8 or 10, the quality level at most 63, a
/// directory is set where one is needed, and interval and ratio are greater than zero.
/// Otherwise the first of these that does not hold is said to be wrong.
pub proof fn law_what_is_wrong_with_a_configuration(c: Config)
    ensures
        ({
            let depth = c.encode.bit_depth == 8 || c.encode.bit_depth == 10;
            let quality = c.encode.crf <= 63;
            let directory = c.output.mode != OutputMode::Directory || c.output.directory is Some;
            let interval = c.scan_interval.secs > 0 || c.scan_interval.nanos > 0;
            let ratio = 0 < c.output.max_output_ratio.bits <= 0x7ff0_0000_0000_0000u64;
            &&& c.fault() is None <==> depth && quality && directory && interval && ratio
            &&& c.fault() == Some(ConfigError::BitDepth) <==> !depth
            &&& c.fault() == Some(ConfigError::Crf) <==> depth && !quality
            &&& c.fault() == Some(ConfigError::MissingDirectory) <==> depth && quality
                && !directory
            &&& c.fault() == Some(ConfigError::ScanInterval) <==> depth && quality && directory
                && !interval
            &&& c.fault() == Some(ConfigError::OutputRatio) <==> depth && quality && directory
                && interval && !ratio
        }),
{
    law_positive_ratios(c.output.max_output_ratio);
}

/// Whether there is a file at a place.
pub open spec fn is_there(place: Option<Place>) -> bool {
    place is Some && place->0.exists
}

/// The file that is read is the first of the four that is there.
pub proof fn law_the_first_file_that_exists_is_used(
    explicit: Option<Place>,
    environment: Option<Place>,
    user: Option<Place>,
    system: Place,
)
    ensures
        ({
            let chosen = config::first_of(
                config::at_place(explicit),
                config::first_of(
                    config::at_place(environment),
                    config::first_of(config::at_place(user), config::at_place(Some(system))),
                ),
            );
            let none = !is_there(explicit) && !is_there(environment) && !is_there(user);
            &&& is_there(explicit) ==> chosen == Some(explicit->0.path.bytes@)
            &&& !is_there(explicit) && is_there(environment) ==> chosen == Some(
                environment->0.path.bytes@,
            )
            &&& !is_there(explicit) && !is_there(environment) && is_there(user) ==> chosen == Some(
                user->0.path.bytes@,
            )
            &&& none && system.exists ==> chosen == Some(system.path.bytes@)
            &&& none && !system.exists ==> chosen is None
        }),
{
}

/// The defaults.
pub proof fn law_defaults(c: Config, e: EncodeConfig, o: OutputConfig, l: LogConfig)
    ensures
        e.is_default() ==> e.crf == 32 && e.preset == 6 && e.audio_bitrate == 128 && e.bit_depth
            == 10,
        o.is_default() ==> {
            &&& o.mode == OutputMode::Beside
            &&& o.directory is None
            &&& o.suffix@.len() == 0
            &&& !o.replace
            &&& o.skip_av1
            &&& o.preserve_timestamps
            &&& o.max_output_ratio.bits == 0x3ff0_0000_0000_0000u64
        },
        l.is_default() ==> l.level@ == "info"@ && l.file is None,
        c.is_default() ==> {
            &&& c.watch@.len() == 0
            &&& c.recursive
            &&& c.scan_interval.secs == 15 * 60 && c.scan_interval.nanos == 0
            &&& c.min_file_age.secs == 60 && c.min_file_age.nanos == 0
            &&& c.max_attempts == 3
            &&& c.state_file.bytes@ == vstd::utf8::encode_utf8("/var/lib/vidwatcher/state.json"@)
            &&& c.encode.is_default()
            &&& c.output.is_default()
            &&& c.log.is_default()
        },
{
}

/// A time is as long as its seconds and nanoseconds together.
pub proof fn law_length_of_a_time(a: Span)
    ensures
        a.total() == 1_000_000_000 * a.secs + a.nanos,
{
}

/// What is said where there is no configuration names what is wrong.
pub proof fn law_configuration_errors_name_what_is_wrong(error: LoadError, fault: ConfigError)
    ensures
        match error {
            LoadError::Reading(p) => error.text() == "reading config "@ + utf8::shown(p.bytes@),
            LoadError::Parsing(p) => error.text() == "parsing config "@ + utf8::shown(p.bytes@),
            LoadError::Invalid(e) => error.text() == e.text(),
        },
        fault.text() == match fault {
            ConfigError::BitDepth => "encode.bit-depth must be 8 or 10"@,
            ConfigError::Crf => "encode.crf must be 0-63"@,
            ConfigError::MissingDirectory =>
                "output.directory is required when output.mode = \"directory\""@,
            ConfigError::ScanInterval => "scan-interval must be greater than zero"@,
            ConfigError::OutputRatio => "output.max-output-ratio must be greater than zero"@,
        },
{
}

} // verus!
