//! What a scan is configured with, and the errors of a configuration.

use vstd::prelude::*;

verus! {

/// The number of workers of a scan for which none was asked.
pub const DEFAULT_WORKERS: u32 = 4;

/// Why a scan cannot start.
#[derive(Clone, Debug, PartialEq, Eq)]
pub enum ConfigError {
    /// The command line has an option that is unknown or wrongly used; the
    /// text says which.
    Options(String),
    /// The text given as the number of workers is no number.
    WorkerCount(String),
    /// The number of workers given is zero.
    NoWorkers,
    /// The text given as the target is no IP address.
    Address(String),
}

/// The one-line message of an error.
pub open spec fn message_of(error: ConfigError) -> Seq<char> {
    match error {
        ConfigError::Options(detail) => "error parsing options: "@ + detail@,
        ConfigError::WorkerCount(_) => "flag '-j' must be an integer"@,
        ConfigError::NoWorkers => "flag '-j' must be at least 1"@,
        ConfigError::Address(text) => "could not parse "@ + text@ + " as an IP address"@,
    }
}

impl ConfigError {
    /// The one-line message that tells the user of the error.
    pub fn message(&self) -> (text: String)
        ensures
            text@ == message_of(*self),
    {
        match self {
            ConfigError::Options(detail) => {
                let mut text = String::from_str("error parsing options: ");
                text.append(detail.as_str());
                text
            },
            ConfigError::WorkerCount(_) => String::from_str("flag '-j' must be an integer"),
            ConfigError::NoWorkers => String::from_str("flag '-j' must be at least 1"),
            ConfigError::Address(given) => {
                let mut text = String::from_str("could not parse ");
                text.append(given.as_str());
                text.append(" as an IP address");
                text
            },
        }
    }
}

/// Whether a character is a decimal digit.
pub open spec fn is_digit(c: char) -> bool {
    48 <= c as u32 <= 57
}

/// The number that a sequence of decimal digits denotes.
pub open spec fn digits_value(digits: Seq<char>) -> nat
    decreases digits.len(),
{
    if digits.len() == 0 {
        0
    } else {
        (digits_value(digits.drop_last()) * 10 + (digits.last() as u32 - 48)) as nat
    }
}

/// The digits of a number's text: the text without a leading plus sign.
pub open spec fn unsigned_part(text: Seq<char>) -> Seq<char> {
    if text.len() > 0 && text[0] == '+' {
        text.skip(1)
    } else {
        text
    }
}

/// The number that a text denotes: one or more decimal digits, with or
/// without a plus sign before them, of a value that fits in 32 bits.
pub open spec fn number_of(text: Seq<char>) -> Option<nat> {
    let digits = unsigned_part(text);
    if digits.len() > 0 && (forall|i: int| 0 <= i < digits.len() ==> is_digit(#[trigger] digits[i]))
        && digits_value(digits) <= u32::MAX {
        Some(digits_value(digits))
    } else {
        None
    }
}

/// The value of the first digits of a text is at most the value of all.
pub proof fn lemma_digits_prefix(digits: Seq<char>, k: int)
    requires
        0 <= k <= digits.len(),
        forall|i: int| 0 <= i < digits.len() ==> is_digit(#[trigger] digits[i]),
    ensures
        digits_value(digits.take(k)) <= digits_value(digits),
    decreases digits.len() - k,
{
    if k == digits.len() {
        assert(digits.take(k) =~= digits);
    } else {
        lemma_digits_prefix(digits, k + 1);
        let longer = digits.take(k + 1);
        assert(longer.drop_last() =~= digits.take(k));
        assert(is_digit(digits[k]));
        assert(longer.last() == digits[k]);
    }
}

/// Reads the number of workers from its text. It is accepted when the text
/// denotes a number of at least 1; zero and a text that denotes no number
/// are told apart in the error.
pub fn parse_worker_count(text: &str) -> (parsed: Result<u32, ConfigError>)
    ensures
        match number_of(text@) {
            Some(number) => if number >= 1 {
                parsed == Ok::<u32, ConfigError>(number as u32)
            } else {
                parsed == Err::<u32, ConfigError>(ConfigError::NoWorkers)
            },
            None => (parsed matches Err(ConfigError::WorkerCount(given)) && given@ == text@),
        },
{
    let length = text.unicode_len();
    let mut at: usize = 0;
    if length > 0 && text.get_char(0) == '+' {
        at = 1;
    }
    let first = at;
    let ghost digits = unsigned_part(text@);
    if at == length {
        return Err(ConfigError::WorkerCount(String::from_str(text)));
    }
    let mut value: u64 = 0;
    while at < length
        invariant
            first <= at <= length,
            length == text@.len(),
            digits == text@.skip(first as int),
            digits == unsigned_part(text@),
            forall|i: int| 0 <= i < at - first ==> is_digit(#[trigger] digits[i]),
            value == digits_value(digits.take(at - first)),
            value <= u32::MAX,
        decreases length - at,
    {
        let c = text.get_char(at);
        let code = c as u32;
        if code < 48 || code > 57 {
            assert(!is_digit(digits[at - first]));
            return Err(ConfigError::WorkerCount(String::from_str(text)));
        }
        proof {
            let longer = digits.take(at - first + 1);
            assert(longer.drop_last() =~= digits.take(at - first));
            assert(longer.last() == c);
        }
        value = value * 10 + (code - 48) as u64;
        at = at + 1;
        if value > 0xffff_ffff {
            proof {
                if forall|i: int| 0 <= i < digits.len() ==> is_digit(#[trigger] digits[i]) {
                    lemma_digits_prefix(digits, at - first);
                }
            }
            return Err(ConfigError::WorkerCount(String::from_str(text)));
        }
    }
    proof {
        assert(digits.take(at - first) =~= digits);
    }
    if value == 0 {
        Err(ConfigError::NoWorkers)
    } else {
        Ok(value as u32)
    }
}

/// What one scan is run with: the target as the user wrote it, and the
/// number of workers, which is at least 1.
#[derive(Debug, PartialEq, Eq)]
pub struct ScanConfig {
    target: String,
    workers: u32,
}

impl ScanConfig {
    /// The target, as text.
    pub closed spec fn target_text(&self) -> Seq<char> {
        self.target@
    }

    /// The number of workers.
    pub closed spec fn worker_total(&self) -> int {
        self.workers as int
    }

    /// A configuration has at least one worker.
    #[verifier::type_invariant]
    spec fn wf(&self) -> bool {
        self.workers >= 1
    }

    /// A configuration for `target` with `workers` workers; refused when
    /// `workers` is zero.
    pub fn new(target: String, workers: u32) -> (made: Result<ScanConfig, ConfigError>)
        ensures
            workers >= 1 ==> (made matches Ok(config) && config.target_text() == target@
                && config.worker_total() == workers),
            workers == 0 ==> made == Err::<ScanConfig, ConfigError>(ConfigError::NoWorkers),
    {
        if workers == 0 {
            Err(ConfigError::NoWorkers)
        } else {
            Ok(ScanConfig { target, workers })
        }
    }

    /// The target, as text.
    pub fn target(&self) -> (text: &str)
        ensures
            text@ == self.target_text(),
    {
        self.target.as_str()
    }

    /// The number of workers, which is at least 1.
    pub fn workers(&self) -> (workers: u32)
        ensures
            workers == self.worker_total(),
            workers >= 1,
    {
        proof {
            use_type_invariant(self);
        }
        self.workers
    }
}

} // verus!
