//! Code fragments found in documents, and their runtime profiles.
use vstd::prelude::*;
use crate::annotations::{Annotations, value_in};
use crate::sorted::{insert_sorted, lemma_is_sorted_list, sorted_list, strictly_sorted, strings_of};
use crate::annotations::{parse, parse_annotations};
use crate::text::{
    begins, chars_of, contains, decimal, document_stem, join_lines, join_range, lines, occurs, owned, push_all,
    push_decimal, push_str, slice_of, split_at_char, split_lines, split_on, starts_with, stem_of, string_of, trim,
    trimmed, views,
};

verus! {

/// The runtime a code fragment assumes.
#[derive(Debug, Clone)]
pub enum ExampleContext {
    /// A complete standard runtime.
    Std { features: Vec<String> },
    /// A minimal runtime on the given target triple.
    NoStd { target: String, features: Vec<String> },
    /// A minimal runtime on a specific board or chip family.
    Hardware { platform: String, features: Vec<String> },
    /// Code sensitive to side channels and key handling.
    Crypto { algorithm: Option<String>, features: Vec<String> },
    /// A known-incomplete excerpt that is never compiled.
    Snippet { reason: String },
}

/// The value of an `ExampleContext`, with its text as character sequences.
pub ghost enum Profile {
    Std { features: Seq<Seq<char>> },
    NoStd { target: Seq<char>, features: Seq<Seq<char>> },
    Hardware { platform: Seq<char>, features: Seq<Seq<char>> },
    Crypto { algorithm: Option<Seq<char>>, features: Seq<Seq<char>> },
    Snippet { reason: Seq<char> },
}

impl View for ExampleContext {
    type V = Profile;

    open spec fn view(&self) -> Profile {
        match self {
            ExampleContext::Std { features } => Profile::Std { features: features.deep_view() },
            ExampleContext::NoStd { target, features } => Profile::NoStd {
                target: target@,
                features: features.deep_view(),
            },
            ExampleContext::Hardware { platform, features } => Profile::Hardware {
                platform: platform@,
                features: features.deep_view(),
            },
            ExampleContext::Crypto { algorithm, features } => Profile::Crypto {
                algorithm: algorithm.deep_view(),
                features: features.deep_view(),
            },
            ExampleContext::Snippet { reason } => Profile::Snippet { reason: reason@ },
        }
    }
}

/// The features a profile asks for; none for an excerpt.
pub open spec fn profile_features(p: Profile) -> Seq<Seq<char>> {
    match p {
        Profile::Std { features } => features,
        Profile::NoStd { features, .. } => features,
        Profile::Hardware { features, .. } => features,
        Profile::Crypto { features, .. } => features,
        Profile::Snippet { .. } => Seq::empty(),
    }
}

impl ExampleContext {
    /// Whether a fragment of this profile is compiled at all.
    pub fn should_compile(&self) -> (r: bool)
        ensures
            r == !(self@ is Snippet),
    {
        !matches!(self, ExampleContext::Snippet { .. })
    }

    /// The features this profile asks for.
    pub fn features(&self) -> (r: &[String])
        ensures
            r@.map_values(|f: String| f@) == profile_features(self@),
    {
        match self {
            ExampleContext::Std { features } => features.as_slice(),
            ExampleContext::NoStd { features, .. } => features.as_slice(),
            ExampleContext::Hardware { features, .. } => features.as_slice(),
            ExampleContext::Crypto { features, .. } => features.as_slice(),
            ExampleContext::Snippet { .. } => &[],
        }
    }

    /// Whether this profile assumes no standard runtime.
    pub fn is_no_std(&self) -> (r: bool)
        ensures
            r == (self@ is NoStd || self@ is Hardware || self@ is Crypto),
    {
        matches!(self, ExampleContext::NoStd { .. } | ExampleContext::Hardware { .. } | ExampleContext::Crypto { .. })
    }
}

/// Names and operations that mark cryptographic code.
pub open spec fn crypto_markers(s: Seq<char>) -> bool {
    occurs(s, "zeroize"@)
        || occurs(s, "Zeroize"@)
        || occurs(s, "aes::"@)
        || occurs(s, "Aes"@)
        || occurs(s, "sha2::"@)
        || occurs(s, "Sha256"@)
        || occurs(s, "Sha512"@)
        || occurs(s, "chacha20"@)
        || occurs(s, "ChaCha20"@)
        || occurs(s, "ed25519"@)
        || occurs(s, "Ed25519"@)
        || occurs(s, "rsa::"@)
        || occurs(s, "RSA"@)
        || occurs(s, "hmac::"@)
        || occurs(s, "HMAC"@)
        || occurs(s, "pbkdf2"@)
        || occurs(s, "PBKDF2"@)
        || occurs(s, "encrypt"@)
        || occurs(s, "decrypt"@)
        || occurs(s, "cipher"@)
        || occurs(s, "hash_password"@)
        || occurs(s, "verify_password"@)
        || occurs(s, "sign_message"@)
        || occurs(s, "verify_signature"@)
        || occurs(s, "derive_key"@)
        || occurs(s, "generate_key"@)
        || occurs(s, "SecureKey"@)
        || occurs(s, "CryptoError"@)
        || occurs(s, "constant_time"@)
        || occurs(s, "timing_safe"@)
        || occurs(s, "secure_random"@)
        || occurs(s, "crypto_random"@)
        || occurs(s, "crypto_hardware"@)
        || occurs(s, "hardware_rng"@)
        || occurs(s, "secure_element"@)
        || occurs(s, "private_key"@)
        || occurs(s, "public_key"@)
        || occurs(s, "secret_key"@)
        || occurs(s, "master_key"@)
        || occurs(s, "encryption_key"@)
        || occurs(s, "signing_key"@)
        || occurs(s, "key_pair"@)
        || occurs(s, "KeyPair"@)
        || occurs(s, "key.zeroize"@)
        || occurs(s, "key_material"@)
}

/// Whether `s` holds a cryptographic marker.
fn crypto_markers_in(s: &Vec<char>) -> (r: bool)
    ensures
        r == crypto_markers(s@),
{
    contains(s, "zeroize")
        || contains(s, "Zeroize")
        || contains(s, "aes::")
        || contains(s, "Aes")
        || contains(s, "sha2::")
        || contains(s, "Sha256")
        || contains(s, "Sha512")
        || contains(s, "chacha20")
        || contains(s, "ChaCha20")
        || contains(s, "ed25519")
        || contains(s, "Ed25519")
        || contains(s, "rsa::")
        || contains(s, "RSA")
        || contains(s, "hmac::")
        || contains(s, "HMAC")
        || contains(s, "pbkdf2")
        || contains(s, "PBKDF2")
        || contains(s, "encrypt")
        || contains(s, "decrypt")
        || contains(s, "cipher")
        || contains(s, "hash_password")
        || contains(s, "verify_password")
        || contains(s, "sign_message")
        || contains(s, "verify_signature")
        || contains(s, "derive_key")
        || contains(s, "generate_key")
        || contains(s, "SecureKey")
        || contains(s, "CryptoError")
        || contains(s, "constant_time")
        || contains(s, "timing_safe")
        || contains(s, "secure_random")
        || contains(s, "crypto_random")
        || contains(s, "crypto_hardware")
        || contains(s, "hardware_rng")
        || contains(s, "secure_element")
        || contains(s, "private_key")
        || contains(s, "public_key")
        || contains(s, "secret_key")
        || contains(s, "master_key")
        || contains(s, "encryption_key")
        || contains(s, "signing_key")
        || contains(s, "key_pair")
        || contains(s, "KeyPair")
        || contains(s, "key.zeroize")
        || contains(s, "key_material")
}

/// The algorithm that the first matching pair of names points to.
pub open spec fn crypto_algorithm(s: Seq<char>) -> Option<Seq<char>> {
    if occurs(s, "aes"@) || occurs(s, "Aes"@) {
        Some("AES"@)
    } else if occurs(s, "sha"@) || occurs(s, "Sha"@) {
        Some("SHA"@)
    } else if occurs(s, "chacha"@) || occurs(s, "ChaCha"@) {
        Some("ChaCha20"@)
    } else if occurs(s, "ecdh"@) || occurs(s, "ECDH"@) {
        Some("ECDH"@)
    } else if occurs(s, "rsa"@) || occurs(s, "RSA"@) {
        Some("RSA"@)
    } else if occurs(s, "ed25519"@) || occurs(s, "Ed25519"@) {
        Some("Ed25519"@)
    } else {
        None
    }
}

/// The algorithm that `s` names, by `crypto_algorithm`.
fn crypto_algorithm_in(s: &Vec<char>) -> (r: Option<String>)
    ensures
        r.deep_view() == crypto_algorithm(s@),
{
    if contains(s, "aes") || contains(s, "Aes") {
        Some(owned("AES"))
    } else if contains(s, "sha") || contains(s, "Sha") {
        Some(owned("SHA"))
    } else if contains(s, "chacha") || contains(s, "ChaCha") {
        Some(owned("ChaCha20"))
    } else if contains(s, "ecdh") || contains(s, "ECDH") {
        Some(owned("ECDH"))
    } else if contains(s, "rsa") || contains(s, "RSA") {
        Some(owned("RSA"))
    } else if contains(s, "ed25519") || contains(s, "Ed25519") {
        Some(owned("Ed25519"))
    } else {
        None
    }
}

/// Names that mark code written for specific hardware.
pub open spec fn hardware_markers(s: Seq<char>) -> bool {
    occurs(s, "stm32"@)
        || occurs(s, "STM32"@)
        || occurs(s, "cortex_m"@)
        || occurs(s, "cortex-m"@)
        || occurs(s, "embedded_hal"@)
        || occurs(s, "hal::"@)
        || occurs(s, "GPIO"@)
        || occurs(s, "gpio::"@)
        || occurs(s, "SPI"@)
        || occurs(s, "spi::"@)
        || occurs(s, "I2C"@)
        || occurs(s, "i2c::"@)
        || occurs(s, "UART"@)
        || occurs(s, "uart::"@)
        || occurs(s, "Timer"@)
        || occurs(s, "timer::"@)
        || occurs(s, "PWM"@)
        || occurs(s, "pwm::"@)
        || occurs(s, "ADC"@)
        || occurs(s, "adc::"@)
        || occurs(s, "DMA"@)
        || occurs(s, "dma::"@)
        || occurs(s, "interrupt"@)
        || occurs(s, "Interrupt"@)
        || occurs(s, "NVIC"@)
        || occurs(s, "nvic"@)
        || occurs(s, "pac::"@)
        || occurs(s, "PAC"@)
        || occurs(s, "rcc::"@)
        || occurs(s, "RCC"@)
        || occurs(s, "clocks"@)
        || occurs(s, "Clocks"@)
        || occurs(s, "pins"@)
        || occurs(s, "Pins"@)
}

/// Whether `s` holds a hardware marker.
fn hardware_markers_in(s: &Vec<char>) -> (r: bool)
    ensures
        r == hardware_markers(s@),
{
    contains(s, "stm32")
        || contains(s, "STM32")
        || contains(s, "cortex_m")
        || contains(s, "cortex-m")
        || contains(s, "embedded_hal")
        || contains(s, "hal::")
        || contains(s, "GPIO")
        || contains(s, "gpio::")
        || contains(s, "SPI")
        || contains(s, "spi::")
        || contains(s, "I2C")
        || contains(s, "i2c::")
        || contains(s, "UART")
        || contains(s, "uart::")
        || contains(s, "Timer")
        || contains(s, "timer::")
        || contains(s, "PWM")
        || contains(s, "pwm::")
        || contains(s, "ADC")
        || contains(s, "adc::")
        || contains(s, "DMA")
        || contains(s, "dma::")
        || contains(s, "interrupt")
        || contains(s, "Interrupt")
        || contains(s, "NVIC")
        || contains(s, "nvic")
        || contains(s, "pac::")
        || contains(s, "PAC")
        || contains(s, "rcc::")
        || contains(s, "RCC")
        || contains(s, "clocks")
        || contains(s, "Clocks")
        || contains(s, "pins")
        || contains(s, "Pins")
}

/// The platform that the first matching pair of names points to.
pub open spec fn hardware_platform(s: Seq<char>) -> Option<Seq<char>> {
    if occurs(s, "stm32f4"@) || occurs(s, "STM32F4"@) {
        Some("STM32F4"@)
    } else if occurs(s, "stm32f3"@) || occurs(s, "STM32F3"@) {
        Some("STM32F3"@)
    } else if occurs(s, "stm32l4"@) || occurs(s, "STM32L4"@) {
        Some("STM32L4"@)
    } else if occurs(s, "nrf52"@) || occurs(s, "NRF52"@) {
        Some("nRF52"@)
    } else if occurs(s, "esp32"@) || occurs(s, "ESP32"@) {
        Some("ESP32"@)
    } else if occurs(s, "rp2040"@) || occurs(s, "RP2040"@) {
        Some("RP2040"@)
    } else if occurs(s, "cortex_m"@) || occurs(s, "cortex-m"@) {
        Some("Cortex-M"@)
    } else {
        None
    }
}

/// The platform that `s` names, by `hardware_platform`.
fn hardware_platform_in(s: &Vec<char>) -> (r: Option<String>)
    ensures
        r.deep_view() == hardware_platform(s@),
{
    if contains(s, "stm32f4") || contains(s, "STM32F4") {
        Some(owned("STM32F4"))
    } else if contains(s, "stm32f3") || contains(s, "STM32F3") {
        Some(owned("STM32F3"))
    } else if contains(s, "stm32l4") || contains(s, "STM32L4") {
        Some(owned("STM32L4"))
    } else if contains(s, "nrf52") || contains(s, "NRF52") {
        Some(owned("nRF52"))
    } else if contains(s, "esp32") || contains(s, "ESP32") {
        Some(owned("ESP32"))
    } else if contains(s, "rp2040") || contains(s, "RP2040") {
        Some(owned("RP2040"))
    } else if contains(s, "cortex_m") || contains(s, "cortex-m") {
        Some(owned("Cortex-M"))
    } else {
        None
    }
}

/// Paths and attributes that mark code for a minimal runtime.
pub open spec fn minimal_runtime_markers(s: Seq<char>) -> bool {
    occurs(s, "heapless::"@)
        || occurs(s, "nb::"@)
        || occurs(s, "cortex_m"@)
        || occurs(s, "embedded_hal"@)
        || occurs(s, "panic_halt"@)
        || occurs(s, "panic_abort"@)
        || occurs(s, "panic_semihosting"@)
        || occurs(s, "#[no_mangle]"@)
        || occurs(s, "extern \"C\""@)
        || occurs(s, "core::"@)
        || occurs(s, "alloc::"@)
}

/// Whether `s` holds a minimal-runtime marker.
fn minimal_runtime_markers_in(s: &Vec<char>) -> (r: bool)
    ensures
        r == minimal_runtime_markers(s@),
{
    contains(s, "heapless::")
        || contains(s, "nb::")
        || contains(s, "cortex_m")
        || contains(s, "embedded_hal")
        || contains(s, "panic_halt")
        || contains(s, "panic_abort")
        || contains(s, "panic_semihosting")
        || contains(s, "#[no_mangle]")
        || contains(s, "extern \"C\"")
        || contains(s, "core::")
        || contains(s, "alloc::")
}


/// Code for a minimal runtime: it disables the standard runtime outright, or it holds a
/// minimal-runtime marker and nothing that needs the full runtime.
pub open spec fn minimal_runtime_code(s: Seq<char>) -> bool {
    occurs(s, "#![no_std]"@) || occurs(s, "#![no_main]"@) || (minimal_runtime_markers(s) && !(occurs(
        s,
        "std::"@,
    ) || occurs(s, "println!"@) || occurs(s, "main()"@)))
}

fn minimal_runtime_code_in(s: &Vec<char>) -> (r: bool)
    ensures
        r == minimal_runtime_code(s@),
{
    if contains(s, "#![no_std]") || contains(s, "#![no_main]") {
        return true;
    }
    let marked = minimal_runtime_markers_in(s);
    let full = contains(s, "std::") || contains(s, "println!") || contains(s, "main()");
    marked && !full
}

/// Trimmed code that shows the structure of a complete program or item.
pub open spec fn has_structure(c: Seq<char>) -> bool {
    occurs(c, "fn main"@) || occurs(c, "#[entry]"@) || occurs(c, "cortex_m_rt::entry"@) || occurs(c, "#[test]"@)
        || (occurs(c, "fn "@) && !begins(c, "fn "@)) || occurs(c, "struct "@) || occurs(c, "impl "@)
}

/// Every line of `c` is blank or a line comment.
pub open spec fn comments_only(c: Seq<char>) -> bool {
    forall|i: int|
        0 <= i < lines(c).len() ==> {
            let t = trim(#[trigger] lines(c)[i]);
            t.len() == 0 || begins(t, "//"@)
        }
}

/// Code that reads as an incomplete excerpt: very short, or without structure and with one
/// of the marks of an excerpt.
pub open spec fn snippet_code(s: Seq<char>) -> bool {
    let c = trim(s);
    if c.len() < 10 {
        true
    } else if has_structure(c) {
        false
    } else {
        (begins(c, "let "@) && !occurs(c, "fn "@)) || (lines(c).len() <= 3 && !occurs(c, "{"@) && !occurs(
            c,
            "}"@,
        )) || comments_only(c) || occurs(c, "..."@)
    }
}

fn comments_only_in(c: &Vec<char>) -> (r: bool)
    ensures
        r == comments_only(c@),
{
    let ls = split_lines(c);
    let mut i: usize = 0;
    while i < ls.len()
        invariant
            i <= ls.len(),
            views(ls@) == lines(c@),
            forall|j: int|
                0 <= j < i ==> {
                    let t = trim(#[trigger] lines(c@)[j]);
                    t.len() == 0 || begins(t, "//"@)
                },
        decreases ls.len() - i,
    {
        let t = trimmed(&ls[i]);
        assert(ls@[i as int]@ == lines(c@)[i as int]);
        if !(t.len() == 0 || starts_with(&t, "//")) {
            return false;
        }
        i = i + 1;
    }
    true
}

pub fn snippet_code_in(s: &Vec<char>) -> (r: bool)
    ensures
        r == snippet_code(s@),
{
    let c = trimmed(s);
    if c.len() < 10 {
        return true;
    }
    let structured = contains(&c, "fn main") || contains(&c, "#[entry]") || contains(&c, "cortex_m_rt::entry")
        || contains(&c, "#[test]") || (contains(&c, "fn ") && !starts_with(&c, "fn ")) || contains(&c, "struct ")
        || contains(&c, "impl ");
    if structured {
        return false;
    }
    if starts_with(&c, "let ") && !contains(&c, "fn ") {
        return true;
    }
    let ls = split_lines(&c);
    proof {
        assert(ls@.len() == views(ls@).len());
    }
    if ls.len() <= 3 && !contains(&c, "{") && !contains(&c, "}") {
        return true;
    }
    comments_only_in(&c) || contains(&c, "...")
}

/// Finds fenced code fragments in documents and classifies them.
pub struct CodeExtractor {}

impl CodeExtractor {
    /// A new extractor; creating one cannot fail.
    pub fn new() -> (r: Result<CodeExtractor, String>)
        ensures
            r is Ok,
    {
        Ok(CodeExtractor {})
    }

    /// Whether `code` looks cryptographic.
    pub fn is_crypto_code(&self, code: &str) -> (r: bool)
        ensures
            r == crypto_markers(code@),
    {
        crypto_markers_in(&chars_of(code))
    }

    /// The cryptographic algorithm that `code` names, if any.
    pub fn detect_crypto_algorithm(&self, code: &str) -> (r: Option<String>)
        ensures
            r.deep_view() == crypto_algorithm(code@),
    {
        crypto_algorithm_in(&chars_of(code))
    }

    /// Whether `code` looks written for specific hardware.
    pub fn is_hardware_code(&self, code: &str) -> (r: bool)
        ensures
            r == hardware_markers(code@),
    {
        hardware_markers_in(&chars_of(code))
    }

    /// The hardware platform that `code` names, if any.
    pub fn detect_hardware_platform(&self, code: &str) -> (r: Option<String>)
        ensures
            r.deep_view() == hardware_platform(code@),
    {
        hardware_platform_in(&chars_of(code))
    }

    /// Whether `code` targets a minimal runtime.
    pub fn is_no_std_code(&self, code: &str) -> (r: bool)
        ensures
            r == minimal_runtime_code(code@),
    {
        minimal_runtime_code_in(&chars_of(code))
    }

    /// Whether `code` reads as an incomplete excerpt.
    pub fn is_snippet_code(&self, code: &str) -> (r: bool)
        ensures
            r == snippet_code(code@),
    {
        snippet_code_in(&chars_of(code))
    }
}


/// `f` is one of the comma-separated names in the `features` annotation.
pub open spec fn listed_feature(ann: Map<Seq<char>, Option<Seq<char>>>, f: Seq<char>) -> bool {
    match value_in(ann, "features"@) {
        Some(v) => f.len() > 0 && exists|i: int|
            0 <= i < split_on(v, ',').len() && trim(#[trigger] split_on(v, ',')[i]) == f,
        None => false,
    }
}

/// The features an annotation set asks for: those listed, plus `crypto` and `hardware`
/// where those annotations are present.
pub open spec fn feature_set(ann: Map<Seq<char>, Option<Seq<char>>>) -> Set<Seq<char>> {
    Set::new(
        |f: Seq<char>|
            listed_feature(ann, f) || (f == "crypto"@ && ann.contains_key("crypto"@)) || (f == "hardware"@
                && ann.contains_key("hardware"@)),
    )
}

/// The features of an annotation set, sorted and without duplicates.
pub open spec fn features_for(ann: Map<Seq<char>, Option<Seq<char>>>) -> Seq<Seq<char>> {
    sorted_list(feature_set(ann))
}

/// The target triple assumed for minimal-runtime code when none is given.
pub open spec fn default_target() -> Seq<char> {
    "thumbv7em-none-eabihf"@
}

/// The profile of a fragment, by the first rule that applies: explicit excerpt, hardware,
/// minimal-runtime and crypto annotations, then the content heuristics in the same order,
/// then the excerpt heuristic, and the full runtime otherwise.
pub open spec fn classify(ann: Map<Seq<char>, Option<Seq<char>>>, code: Seq<char>) -> Profile {
    let features = features_for(ann);
    let target = match value_in(ann, "target"@) {
        Some(t) => t,
        None => default_target(),
    };
    if ann.contains_key("snippet"@) {
        Profile::Snippet {
            reason: match value_in(ann, "snippet"@) {
                Some(r) => r,
                None => "incomplete code"@,
            },
        }
    } else if value_in(ann, "hardware"@) is Some {
        Profile::Hardware { platform: value_in(ann, "hardware"@)->0, features }
    } else if ann.contains_key("no_std"@) {
        Profile::NoStd { target, features }
    } else if ann.contains_key("crypto"@) {
        Profile::Crypto {
            algorithm: match value_in(ann, "algorithm"@) {
                Some(a) => Some(a),
                None => crypto_algorithm(code),
            },
            features,
        }
    } else if minimal_runtime_code(code) {
        Profile::NoStd { target, features }
    } else if hardware_markers(code) {
        Profile::Hardware {
            platform: match hardware_platform(code) {
                Some(p) => p,
                None => "generic"@,
            },
            features,
        }
    } else if crypto_markers(code) {
        Profile::Crypto { algorithm: crypto_algorithm(code), features }
    } else if snippet_code(code) {
        Profile::Snippet { reason: "appears to be incomplete code"@ }
    } else {
        Profile::Std { features }
    }
}

fn add_name(v: &mut Vec<Vec<char>>, name: &str)
    requires
        strictly_sorted(views(old(v)@)),
    ensures
        strictly_sorted(views(final(v)@)),
        views(final(v)@).to_set() == views(old(v)@).to_set().insert(name@),
{
    insert_sorted(v, chars_of(name));
}

impl CodeExtractor {
    /// The features that `annotations` ask for, sorted and without duplicates.
    pub fn extract_features(&self, annotations: &Annotations) -> (r: Vec<String>)
        ensures
            r.deep_view() == features_for(annotations@),
            strictly_sorted(r.deep_view()),
    {
        let ghost ann = annotations@;
        let mut v: Vec<Vec<char>> = Vec::new();
        match annotations.value_of("features") {
            Some(fs) => {
                let parts = split_at_char(&chars_of(fs.as_str()), ',');
                let ghost vs = fs@;
                let mut i: usize = 0;
                while i < parts.len()
                    invariant
                        i <= parts.len(),
                        views(parts@) == split_on(vs, ','),
                        strictly_sorted(views(v@)),
                        views(v@).to_set() == Set::new(
                            |f: Seq<char>| f.len() > 0 && exists|j: int| 0 <= j < i && trim(#[trigger] split_on(vs, ',')[j]) == f,
                        ),
                    decreases parts.len() - i,
                {
                    let t = trimmed(&parts[i]);
                    assert(parts@[i as int]@ == split_on(vs, ',')[i as int]);
                    let ghost before = views(v@).to_set();
                    if t.len() > 0 {
                        insert_sorted(&mut v, t);
                    }
                    i = i + 1;
                    assert(views(v@).to_set() =~= Set::new(
                        |f: Seq<char>| f.len() > 0 && exists|j: int| 0 <= j < i && trim(#[trigger] split_on(vs, ',')[j]) == f,
                    )) by {
                        assert forall|f: Seq<char>|
                            (f.len() > 0 && exists|j: int| 0 <= j < i && trim(#[trigger] split_on(vs, ',')[j]) == f)
                                implies views(v@).to_set().contains(f) by {
                            let j = choose|j: int| 0 <= j < i && trim(#[trigger] split_on(vs, ',')[j]) == f;
                            if j < i - 1 {
                                assert(before.contains(f));
                            }
                        }
                    }
                }
                assert(value_in(ann, "features"@) == Some(vs));
                assert(parts@.len() == split_on(vs, ',').len());
                assert forall|f: Seq<char>| views(v@).to_set().contains(f) <==> listed_feature(ann, f) by {
                    if listed_feature(ann, f) {
                        let j = choose|j: int| 0 <= j < split_on(vs, ',').len() && trim(#[trigger] split_on(vs, ',')[j]) == f;
                        assert(0 <= j < i && trim(split_on(vs, ',')[j]) == f);
                    }
                }
                assert(views(v@).to_set() =~= Set::new(|f: Seq<char>| listed_feature(ann, f)));
            },
            None => {
                assert(views(v@) =~= Seq::<Seq<char>>::empty());
                assert(views(v@).to_set() =~= Set::new(|f: Seq<char>| listed_feature(ann, f)));
            },
        }
        if annotations.contains_key("crypto") {
            add_name(&mut v, "crypto");
        }
        if annotations.contains_key("hardware") {
            add_name(&mut v, "hardware");
        }
        assert(views(v@).to_set() =~= feature_set(ann));
        proof {
            lemma_is_sorted_list(views(v@));
        }
        strings_of(&v)
    }
}


impl CodeExtractor {
    fn target_of(&self, annotations: &Annotations) -> (r: String)
        ensures
            r@ == match value_in(annotations@, "target"@) {
                Some(t) => t,
                None => default_target(),
            },
    {
        match annotations.value_of("target") {
            Some(t) => t,
            None => owned("thumbv7em-none-eabihf"),
        }
    }

    fn classify_chars(&self, annotations: &Annotations, code: &Vec<char>) -> (r: ExampleContext)
        ensures
            r@ == classify(annotations@, code@),
    {
        if annotations.contains_key("snippet") {
            let reason = match annotations.value_of("snippet") {
                Some(r) => r,
                None => owned("incomplete code"),
            };
            return ExampleContext::Snippet { reason };
        }
        match annotations.value_of("hardware") {
            Some(platform) => {
                let features = self.extract_features(annotations);
                return ExampleContext::Hardware { platform, features };
            },
            None => {},
        }
        if annotations.contains_key("no_std") {
            let target = self.target_of(annotations);
            let features = self.extract_features(annotations);
            return ExampleContext::NoStd { target, features };
        }
        if annotations.contains_key("crypto") {
            let algorithm = match annotations.value_of("algorithm") {
                Some(a) => Some(a),
                None => crypto_algorithm_in(code),
            };
            let features = self.extract_features(annotations);
            return ExampleContext::Crypto { algorithm, features };
        }
        if minimal_runtime_code_in(code) {
            let target = self.target_of(annotations);
            let features = self.extract_features(annotations);
            return ExampleContext::NoStd { target, features };
        }
        if hardware_markers_in(code) {
            let platform = match hardware_platform_in(code) {
                Some(p) => p,
                None => owned("generic"),
            };
            let features = self.extract_features(annotations);
            return ExampleContext::Hardware { platform, features };
        }
        if crypto_markers_in(code) {
            let algorithm = crypto_algorithm_in(code);
            let features = self.extract_features(annotations);
            return ExampleContext::Crypto { algorithm, features };
        }
        if snippet_code_in(code) {
            return ExampleContext::Snippet { reason: owned("appears to be incomplete code") };
        }
        let features = self.extract_features(annotations);
        ExampleContext::Std { features }
    }

    /// The profile of the fragment `code` under `annotations`, by the rules of `classify`.
    pub fn infer_context(&self, annotations: &Annotations, code: &str) -> (r: ExampleContext)
        ensures
            r@ == classify(annotations@, code@),
    {
        self.classify_chars(annotations, &chars_of(code))
    }
}


/// The packages that names in `code` point to directly.
pub open spec fn named_crates(code: Seq<char>) -> Set<Seq<char>> {
    Set::new(
        |n: Seq<char>|
            (n == "heapless"@ && occurs(code, "heapless::"@)) || (n == "cortex-m"@ && occurs(code, "cortex_m"@)) || (
            n == "cortex-m-rt"@ && occurs(code, "cortex_m_rt"@)) || (n == "panic-halt"@ && occurs(
                code,
                "panic_halt"@,
            )) || (n == "zeroize"@ && (occurs(code, "zeroize"@) || occurs(code, "Zeroize"@))) || (n == "aes"@ && (
            occurs(code, "aes"@) || occurs(code, "Aes"@))) || (n == "sha2"@ && (occurs(code, "sha2"@) || occurs(
                code,
                "Sha256"@,
            ))) || (n == "rand"@ && occurs(code, "rand"@)),
    )
}

/// A code fragment taken from a document.
#[derive(Debug, Clone)]
pub struct CodeExample {
    /// Document stem and ordinal, joined by `_`.
    pub id: String,
    /// The document the fragment was found in.
    pub source_file: String,
    /// The line of the opening fence, counting from 1.
    pub line_number: usize,
    /// The lines between the fences.
    pub code: String,
    /// The runtime the fragment assumes.
    pub context: ExampleContext,
    /// The annotations of the opening fence.
    pub annotations: Annotations,
    /// Packages that the code names, sorted and without duplicates.
    pub dependencies: Vec<String>,
}

impl CodeExample {
    /// A fragment with no annotations; its package list is inferred from `code`.
    pub fn new(id: String, source_file: String, line_number: usize, code: String, context: ExampleContext) -> (r:
        CodeExample)
        ensures
            r.id@ == id@,
            r.source_file@ == source_file@,
            r.line_number == line_number,
            r.code@ == code@,
            r.context@ == context@,
            r.annotations@ == Map::<Seq<char>, Option<Seq<char>>>::empty(),
            r.dependencies.deep_view() == sorted_list(named_crates(code@)),
    {
        let dependencies = CodeExample::infer_dependencies(code.as_str());
        CodeExample { id, source_file, line_number, code, context, annotations: Annotations::new(), dependencies }
    }

    /// The packages that `code` names directly, sorted and without duplicates.
    pub fn infer_dependencies(code: &str) -> (r: Vec<String>)
        ensures
            r.deep_view() == sorted_list(named_crates(code@)),
    {
        let c = chars_of(code);
        let mut v: Vec<Vec<char>> = Vec::new();
        if contains(&c, "heapless::") {
            add_name(&mut v, "heapless");
        }
        if contains(&c, "cortex_m") {
            add_name(&mut v, "cortex-m");
        }
        if contains(&c, "cortex_m_rt") {
            add_name(&mut v, "cortex-m-rt");
        }
        if contains(&c, "panic_halt") {
            add_name(&mut v, "panic-halt");
        }
        if contains(&c, "zeroize") || contains(&c, "Zeroize") {
            add_name(&mut v, "zeroize");
        }
        if contains(&c, "aes") || contains(&c, "Aes") {
            add_name(&mut v, "aes");
        }
        if contains(&c, "sha2") || contains(&c, "Sha256") {
            add_name(&mut v, "sha2");
        }
        if contains(&c, "rand") {
            add_name(&mut v, "rand");
        }
        assert(views(v@).to_set() =~= named_crates(code@));
        proof {
            lemma_is_sorted_list(views(v@));
        }
        strings_of(&v)
    }

    /// Whether this fragment is compiled at all.
    pub fn should_compile(&self) -> (r: bool)
        ensures
            r == !(self.context@ is Snippet),
    {
        self.context.should_compile()
    }
}

/// The index of the first line at or after `j` that closes a fence, or the number of lines.
pub open spec fn fence_end(ls: Seq<Seq<char>>, j: int) -> int
    decreases ls.len() - j,
{
    if j >= ls.len() {
        ls.len() as int
    } else if begins(ls[j], "```"@) {
        j
    } else {
        fence_end(ls, j + 1)
    }
}

/// What the opening fence line `line` carries after `rust,`, or nothing.
pub open spec fn annotation_text(line: Seq<char>) -> Seq<char> {
    if line.len() > 7 && line[7] == ',' {
        line.subrange(8, line.len() as int)
    } else {
        Seq::empty()
    }
}

/// A fragment as plain values.
pub ghost struct FragmentView {
    pub id: Seq<char>,
    pub source_file: Seq<char>,
    pub line_number: nat,
    pub code: Seq<char>,
    pub context: Profile,
    pub annotations: Map<Seq<char>, Option<Seq<char>>>,
    pub dependencies: Seq<Seq<char>>,
}

impl CodeExample {
    /// This fragment as plain values.
    pub open spec fn view_of(&self) -> FragmentView {
        FragmentView {
            id: self.id@,
            source_file: self.source_file@,
            line_number: self.line_number as nat,
            code: self.code@,
            context: self.context@,
            annotations: self.annotations@,
            dependencies: self.dependencies.deep_view(),
        }
    }
}

/// The fragment opened at line `i` and closed at line `j`, the `n`-th opener of its document.
pub open spec fn fragment_at(ls: Seq<Seq<char>>, i: int, j: int, n: nat, path: Seq<char>) -> FragmentView {
    let code = join_lines(ls.subrange(i + 1, j));
    let ann = parse(annotation_text(ls[i]));
    FragmentView {
        id: document_stem(path) + "_"@ + decimal(n),
        source_file: path,
        line_number: (i + 1) as nat,
        code,
        context: classify(ann, code),
        annotations: ann,
        dependencies: sorted_list(named_crates(code)),
    }
}

/// The fragments found from line `i` on, where `n` openers came before it. An opener counts
/// even where no closing fence follows it; such a block is dropped and scanning goes on at
/// the next line.
pub open spec fn scan(ls: Seq<Seq<char>>, i: int, n: nat, path: Seq<char>) -> Seq<FragmentView>
    decreases ls.len() - i,
{
    if i < 0 || i >= ls.len() {
        Seq::empty()
    } else if begins(ls[i], "```rust"@) {
        let j = fence_end(ls, i + 1);
        if i < j < ls.len() {
            seq![fragment_at(ls, i, j, n + 1, path)] + scan(ls, j + 1, n + 1, path)
        } else {
            scan(ls, i + 1, n + 1, path)
        }
    } else {
        scan(ls, i + 1, n, path)
    }
}

/// The fragments of a document, in order.
pub open spec fn fragments(content: Seq<char>, path: Seq<char>) -> Seq<FragmentView> {
    scan(lines(content), 0, 0, path)
}

/// The views of a list of fragments.
pub open spec fn fragment_views(v: Seq<CodeExample>) -> Seq<FragmentView> {
    v.map_values(|e: CodeExample| e.view_of())
}

proof fn lemma_fence_end_bound(ls: Seq<Seq<char>>, j: int)
    requires
        0 <= j,
    ensures
        j <= fence_end(ls, j) <= ls.len() || (j > ls.len() && fence_end(ls, j) == ls.len()),
    decreases ls.len() - j,
{
    if j < ls.len() && !begins(ls[j], "```"@) {
        lemma_fence_end_bound(ls, j + 1);
    }
}

impl CodeExtractor {
    /// The fragment between the fence lines `i` and `j`.
    fn fragment(&self, ls: &Vec<Vec<char>>, i: usize, j: usize, n: usize, path: &Vec<char>) -> (r: CodeExample)
        requires
            i < j < ls.len(),
            path.len() < 0x7fff_ffff_ffff_ffff,
        ensures
            r.view_of() == fragment_at(views(ls@), i as int, j as int, n as nat, path@),
    {
        let line = &ls[i];
        let ann_chars = if line.len() > 7 && line[7] == ',' {
            slice_of(line, 8, line.len())
        } else {
            Vec::new()
        };
        proof {
            assert(line@ == views(ls@)[i as int]);
            if !(line@.len() > 7 && line@[7] == ',') {
                assert(ann_chars@ =~= annotation_text(line@));
            }
        }
        let ann_text = string_of(&ann_chars);
        let annotations = parse_annotations(ann_text.as_str());
        let code_chars = join_range(ls, i + 1, j);
        let context = self.classify_chars(&annotations, &code_chars);
        let mut id = stem_of(path);
        push_str(&mut id, "_");
        push_decimal(&mut id, n as u64);
        let code = string_of(&code_chars);
        let dependencies = CodeExample::infer_dependencies(code.as_str());
        CodeExample {
            id: string_of(&id),
            source_file: string_of(path),
            line_number: i + 1,
            code,
            context,
            annotations,
            dependencies,
        }
    }

    /// The fragments of `content`, a document read from `source_file`, in order.
    pub fn extract_from_content(&self, content: &str, source_file: &str) -> (r: Result<Vec<CodeExample>, String>)
        requires
            source_file@.len() < 0x7fff_ffff_ffff_ffff,
        ensures
            r is Ok,
            r matches Ok(v) ==> fragment_views(v@) == fragments(content@, source_file@),
    {
        let path = chars_of(source_file);
        let text = chars_of(content);
        let ls = split_lines(&text);
        let ghost vl = views(ls@);
        let mut out: Vec<CodeExample> = Vec::new();
        let mut n: usize = 0;
        let mut i: usize = 0;
        while i < ls.len()
            invariant
                i <= ls.len(),
                n <= i,
                vl == views(ls@),
                path@ == source_file@,
                path.len() < 0x7fff_ffff_ffff_ffff,
                scan(vl, 0, 0, path@) == fragment_views(out@) + scan(vl, i as int, n as nat, path@),
            decreases ls.len() - i,
        {
            assert(ls@[i as int]@ == vl[i as int]);
            if starts_with(&ls[i], "```rust") {
                n = n + 1;
                let mut j = i + 1;
                while j < ls.len() && !starts_with(&ls[j], "```")
                    invariant
                        i < j <= ls.len(),
                        vl == views(ls@),
                        fence_end(vl, i + 1) == fence_end(vl, j as int),
                    decreases ls.len() - j,
                {
                    assert(ls@[j as int]@ == vl[j as int]);
                    j = j + 1;
                }
                proof {
                    lemma_fence_end_bound(vl, j as int);
                }
                if j < ls.len() {
                    assert(ls@[j as int]@ == vl[j as int]);
                    let e = self.fragment(&ls, i, j, n, &path);
                    let ghost before = fragment_views(out@);
                    out.push(e);
                    assert(fragment_views(out@) =~= before.push(e.view_of()));
                    i = j + 1;
                } else {
                    i = i + 1;
                }
            } else {
                i = i + 1;
            }
        }
        assert(fragment_views(out@) + scan(vl, i as int, n as nat, path@) =~= fragment_views(out@));
        Ok(out)
    }
}


/// An explicit excerpt, hardware or minimal-runtime annotation decides the profile whatever
/// the code says, and an explicit crypto annotation always gives a crypto profile.
pub proof fn lemma_explicit_annotations_win(ann: Map<Seq<char>, Option<Seq<char>>>, code: Seq<char>, other: Seq<char>)
    ensures
        (ann.contains_key("snippet"@) || value_in(ann, "hardware"@) is Some || ann.contains_key("no_std"@))
            ==> classify(ann, code) == classify(ann, other),
        (!ann.contains_key("snippet"@) && value_in(ann, "hardware"@) is None && !ann.contains_key("no_std"@)
            && ann.contains_key("crypto"@)) ==> classify(ann, code) is Crypto,
        value_in(ann, "hardware"@) is Some && !ann.contains_key("snippet"@) ==> classify(ann, code) is Hardware,
{
}

/// An excerpt annotation with a value gives an excerpt with that value as its reason, for any code.
pub proof fn lemma_snippet_annotation(ann: Map<Seq<char>, Option<Seq<char>>>, code: Seq<char>, reason: Seq<char>)
    requires
        ann.contains_key("snippet"@),
        ann["snippet"@] == Some(reason),
    ensures
        classify(ann, code) == (Profile::Snippet { reason }),
{
}


impl ExampleContext {
    /// A copy of this profile.
    pub fn clone_context(&self) -> (r: ExampleContext)
        ensures
            r@ == self@,
    {
        match self {
            ExampleContext::Std { features } => ExampleContext::Std { features: crate::test_config::clone_names(features) },
            ExampleContext::NoStd { target, features } => ExampleContext::NoStd {
                target: target.clone(),
                features: crate::test_config::clone_names(features),
            },
            ExampleContext::Hardware { platform, features } => ExampleContext::Hardware {
                platform: platform.clone(),
                features: crate::test_config::clone_names(features),
            },
            ExampleContext::Crypto { algorithm, features } => ExampleContext::Crypto {
                algorithm: match algorithm {
                    Some(a) => Some(a.clone()),
                    None => None,
                },
                features: crate::test_config::clone_names(features),
            },
            ExampleContext::Snippet { reason } => ExampleContext::Snippet { reason: reason.clone() },
        }
    }
}

impl CodeExample {
    /// A copy of this fragment.
    pub fn clone_example(&self) -> (r: CodeExample)
        ensures
            r.view_of() == self.view_of(),
            r.code@ == self.code@,
            r.id@ == self.id@,
            r.context@ == self.context@,
    {
        CodeExample {
            id: self.id.clone(),
            source_file: self.source_file.clone(),
            line_number: self.line_number,
            code: self.code.clone(),
            context: self.context.clone_context(),
            annotations: self.annotations.clone_annotations(),
            dependencies: crate::test_config::clone_names(&self.dependencies),
        }
    }
}


impl CodeExtractor {
    /// The annotation set that `annotations_str` describes, by `parse`.
    pub fn parse_annotations(&self, annotations_str: &str) -> (r: Annotations)
        ensures
            r@ == parse(annotations_str@),
    {
        parse_annotations(annotations_str)
    }
}

/// A one-line description of a fragment.
pub open spec fn summary_text(f: FragmentView) -> Seq<char> {
    "Example "@ + f.id + " from "@ + f.source_file + ":"@ + decimal(f.line_number) + " ("@
        + crate::error_recovery::profile_key(f.context) + ")"@
}

impl CodeExample {
    /// A one-line description: identifier, document, line and profile.
    pub fn summary(&self) -> (r: String)
        ensures
            r@ == summary_text(self.view_of()),
    {
        let mut out: Vec<char> = Vec::new();
        push_str(&mut out, "Example ");
        push_str(&mut out, self.id.as_str());
        push_str(&mut out, " from ");
        push_str(&mut out, self.source_file.as_str());
        push_str(&mut out, ":");
        push_decimal(&mut out, self.line_number as u64);
        push_str(&mut out, " (");
        crate::error_recovery::push_profile_key(&mut out, &self.context);
        push_str(&mut out, ")");
        string_of(&out)
    }
}

} // verus!
