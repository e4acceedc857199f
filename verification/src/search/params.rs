//! The knobs of a query: the similarity metric, search presets and
//! per-request overrides, and how far a filtered search over-fetches.
use vstd::prelude::*;
use vstd::string::*;
use vstd::utf8::is_ascii_chars;

verus! {

/// How similarity between two vectors is scored.
#[derive(Debug, Clone, Copy, PartialEq, Eq)]
pub enum Metric {
    Cosine,
    Euclidean,
    DotProduct,
}

/// Index search settings that a request may override.
#[derive(Debug, Clone, Copy, PartialEq, Eq)]
pub struct SearchConfig {
    /// HNSW candidate-list size, if set.
    pub ef: Option<usize>,
    /// IVF lists probed, if set.
    pub nprobe: Option<usize>,
    /// How many times `k` a filtered search fetches before filtering.
    pub filter_overfetch: usize,
}

impl Default for SearchConfig {
    /// No `ef` or `nprobe`, and a filter over-fetch of 10.
    fn default() -> (c: SearchConfig)
        ensures
            c == (SearchConfig { ef: None, nprobe: None, filter_overfetch: 10 }),
    {
        SearchConfig { ef: None, nprobe: None, filter_overfetch: 10 }
    }
}

/// Whether two texts hold the same characters.
pub fn same_text(a: &str, b: &str) -> (r: bool)
    ensures
        r == (a@ == b@),
{
    let n = a.unicode_len();
    if n != b.unicode_len() {
        return false;
    }
    let mut i: usize = 0;
    while i < n
        invariant
            n == a@.len(),
            n == b@.len(),
            i <= n,
            forall|j: int| 0 <= j < i ==> a@[j] == b@[j],
        decreases n - i,
    {
        if a.get_char(i) != b.get_char(i) {
            return false;
        }
        i = i + 1;
    }
    assert(a@ =~= b@);
    true
}

/// The metric that a request names: `"euclidean"`, `"dot"` or
/// `"dot_product"`; anything else, or nothing, means cosine.
pub open spec fn metric_named(s: Option<Seq<char>>) -> Metric {
    match s {
        Some(n) => if n == "euclidean"@ {
            Metric::Euclidean
        } else if n == "dot"@ || n == "dot_product"@ {
            Metric::DotProduct
        } else {
            Metric::Cosine
        },
        None => Metric::Cosine,
    }
}

/// Parses the similarity metric that a request names.
pub fn parse_metric(s: Option<String>) -> (m: Metric)
    ensures
        m == metric_named(
            match s {
                Some(x) => Some(x@),
                None => None,
            },
        ),
{
    match s {
        Some(name) => {
            if same_text(name.as_str(), "euclidean") {
                Metric::Euclidean
            } else if same_text(name.as_str(), "dot") || same_text(name.as_str(), "dot_product") {
                Metric::DotProduct
            } else {
                Metric::Cosine
            }
        },
        None => Metric::Cosine,
    }
}

/// The ASCII lower-case of one character: `A` to `Z` become `a` to `z`,
/// other characters stay.
pub open spec fn ascii_lower_char(c: char) -> char {
    if 65 <= c as u32 && c as u32 <= 90 { ((c as u32) + 32) as char } else { c }
}

/// The ASCII lower-case of each character of `s`.
pub open spec fn ascii_lower(s: Seq<char>) -> Seq<char> {
    Seq::new(s.len(), |i: int| ascii_lower_char(s[i]))
}

/// What `str::to_lowercase` gives for `s`: for ASCII text, its ASCII
/// lower-case; beyond ASCII, Unicode's mapping.
pub open spec fn lowercase(s: Seq<char>) -> Seq<char> {
    if is_ascii_chars(s) { ascii_lower(s) } else { spec_to_lowercase(s) }
}

/// What `str::to_lowercase` gives for `s` (Unicode lower-case mapping).
pub uninterp spec fn spec_to_lowercase(s: Seq<char>) -> Seq<char>;

/// Calls `str::to_lowercase`. Its result follows Unicode's case tables; the
/// contract names it, and states what std documents for ASCII text: each
/// of `A` to `Z` becomes `a` to `z` and nothing else changes.
#[verifier::external_body]
fn to_lowercase(s: &str) -> (r: String)
    ensures
        r@ == spec_to_lowercase(s@),
        is_ascii_chars(s@) ==> r@ == ascii_lower(s@),
{
    s.to_lowercase()
}

/// The settings that a lower-cased preset name selects on top of `base`:
/// `"fast"` sets `ef` 50 and `nprobe` 1, `"high"` sets `ef` 400 and `nprobe`
/// 20, and any other name keeps `base`.
pub open spec fn preset_spec(base: SearchConfig, lowered: Seq<char>) -> SearchConfig {
    if lowered == "fast"@ {
        SearchConfig { ef: Some(50), nprobe: Some(1), ..base }
    } else if lowered == "high"@ {
        SearchConfig { ef: Some(400), nprobe: Some(20), ..base }
    } else {
        base
    }
}

/// Applies the preset whose lower-cased name is `lowered`.
pub fn preset_config(base: SearchConfig, lowered: &str) -> (c: SearchConfig)
    ensures
        c == preset_spec(base, lowered@),
{
    let mut cfg = base;
    if same_text(lowered, "fast") {
        cfg.ef = Some(50);
        cfg.nprobe = Some(1);
    } else if same_text(lowered, "high") {
        cfg.ef = Some(400);
        cfg.nprobe = Some(20);
    }
    cfg
}

/// The settings once explicit request values are laid over `cfg`: each
/// given value replaces the setting, and over-fetch is at least 1.
pub open spec fn overrides_spec(
    cfg: SearchConfig,
    req_ef: Option<usize>,
    req_nprobe: Option<usize>,
    req_overfetch: Option<usize>,
) -> SearchConfig {
    SearchConfig {
        ef: match req_ef {
            Some(e) => Some(e),
            None => cfg.ef,
        },
        nprobe: match req_nprobe {
            Some(n) => Some(n),
            None => cfg.nprobe,
        },
        filter_overfetch: match req_overfetch {
            Some(o) => if o >= 1 { o } else { 1 },
            None => cfg.filter_overfetch,
        },
    }
}

/// Lays explicit request values over `cfg`.
pub fn apply_explicit_overrides(
    cfg: SearchConfig,
    req_ef: Option<usize>,
    req_nprobe: Option<usize>,
    req_overfetch: Option<usize>,
) -> (c: SearchConfig)
    ensures
        c == overrides_spec(cfg, req_ef, req_nprobe, req_overfetch),
{
    let mut cfg = cfg;
    if let Some(ef) = req_ef {
        cfg.ef = Some(ef);
    }
    if let Some(nprobe) = req_nprobe {
        cfg.nprobe = Some(nprobe);
    }
    if let Some(of) = req_overfetch {
        cfg.filter_overfetch = if of >= 1 { of } else { 1 };
    }
    cfg
}

/// The search settings for a request: the preset first (matched on its
/// lower-cased name), then each explicit value.
pub fn apply_search_overrides(
    base: SearchConfig,
    req_ef: Option<usize>,
    req_nprobe: Option<usize>,
    req_overfetch: Option<usize>,
    preset: Option<String>,
) -> (c: SearchConfig)
    ensures
        c == overrides_spec(
            match preset {
                Some(p) => preset_spec(base, lowercase(p@)),
                None => base,
            },
            req_ef,
            req_nprobe,
            req_overfetch,
        ),
{
    let cfg = match preset {
        Some(p) => {
            let lowered = to_lowercase(p.as_str());
            preset_config(base, lowered.as_str())
        },
        None => base,
    };
    apply_explicit_overrides(cfg, req_ef, req_nprobe, req_overfetch)
}

/// How many candidates to fetch from the index for a top-`k` search: `k`
/// without a filter; with one, `k` times the over-fetch factor (the
/// request's override, else the configured factor, at least 1), saturating.
pub open spec fn search_k_spec(k: usize, filtered: bool, config_overfetch: usize, overfetch_override: Option<usize>) -> usize {
    let base = if config_overfetch >= 1 { config_overfetch } else { 1 };
    let chosen = match overfetch_override {
        Some(o) => o,
        None => base,
    };
    let expansion = if chosen >= 1 { chosen } else { 1 };
    if filtered {
        if k * expansion > usize::MAX {
            usize::MAX
        } else {
            (k * expansion) as usize
        }
    } else {
        k
    }
}

/// The number of candidates to fetch for a top-`k` search.
pub fn search_k(k: usize, filtered: bool, config_overfetch: usize, overfetch_override: Option<usize>) -> (n: usize)
    ensures
        n == search_k_spec(k, filtered, config_overfetch, overfetch_override),
{
    let base = if config_overfetch >= 1 { config_overfetch } else { 1 };
    let chosen = match overfetch_override {
        Some(o) => o,
        None => base,
    };
    let expansion = if chosen >= 1 { chosen } else { 1 };
    if filtered {
        match k.checked_mul(expansion) {
            Some(n) => n,
            None => usize::MAX,
        }
    } else {
        k
    }
}


/// Explicit request values win over any preset: given all three, the
/// settings hold exactly them (over-fetch raised to at least 1), whatever
/// the base and the preset; given none, the settings are the preset's.
pub proof fn law_explicit_values_win(base: SearchConfig, lowered: Seq<char>, ef: usize, nprobe: usize, overfetch: usize)
    ensures
        overrides_spec(preset_spec(base, lowered), Some(ef), Some(nprobe), Some(overfetch)) == (SearchConfig {
            ef: Some(ef),
            nprobe: Some(nprobe),
            filter_overfetch: if overfetch >= 1 { overfetch } else { 1 },
        }),
        overrides_spec(preset_spec(base, lowered), None, None, None) == preset_spec(base, lowered),
{
}

/// A filtered search never fetches fewer candidates than it returns, unless
/// the product saturates at `usize::MAX`; an unfiltered one fetches exactly `k`.
pub proof fn law_filtered_search_fetches_enough(k: usize, config_overfetch: usize, overfetch_override: Option<usize>)
    ensures
        search_k_spec(k, true, config_overfetch, overfetch_override) >= k,
        search_k_spec(k, false, config_overfetch, overfetch_override) == k,
{
    let base = if config_overfetch >= 1 { config_overfetch } else { 1 };
    let chosen = match overfetch_override {
        Some(o) => o,
        None => base,
    };
    let expansion: int = if chosen >= 1 { chosen as int } else { 1 };
    assert(k * expansion >= k) by (nonlinear_arith)
        requires
            expansion >= 1,
            k >= 0,
    ;
}

/// The presets, as a request with no explicit value sees them: a preset
/// named `fast` in any case gives `ef` 50 and `nprobe` 1, one named `high`
/// gives `ef` 400 and `nprobe` 20, each keeping the base over-fetch; any
/// other name keeps the base settings whole.
pub proof fn law_presets(base: SearchConfig, preset: Seq<char>)
    ensures
        lowercase(preset) == "fast"@ ==> overrides_spec(preset_spec(base, lowercase(preset)), None, None, None)
            == (SearchConfig { ef: Some(50), nprobe: Some(1), filter_overfetch: base.filter_overfetch }),
        lowercase(preset) == "high"@ ==> overrides_spec(preset_spec(base, lowercase(preset)), None, None, None)
            == (SearchConfig { ef: Some(400), nprobe: Some(20), filter_overfetch: base.filter_overfetch }),
        lowercase(preset) != "fast"@ && lowercase(preset) != "high"@
            ==> overrides_spec(preset_spec(base, lowercase(preset)), None, None, None) == base,
        is_ascii_chars(preset) && ascii_lower(preset) == "high"@ ==> overrides_spec(preset_spec(base, lowercase(preset)), None, None, None)
            == (SearchConfig { ef: Some(400), nprobe: Some(20), filter_overfetch: base.filter_overfetch }),
        is_ascii_chars(preset) && ascii_lower(preset) == "fast"@ ==> overrides_spec(preset_spec(base, lowercase(preset)), None, None, None)
            == (SearchConfig { ef: Some(50), nprobe: Some(1), filter_overfetch: base.filter_overfetch }),
{
    reveal_strlit("fast");
    reveal_strlit("high");
    assert("fast"@ != "high"@) by {
        assert("fast"@[0] != "high"@[0]);
    }
}

/// How many candidates a top-`k` search asks the index for: without a
/// filter, `k`; with one, `k` times the request's over-fetch when it gives
/// one of at least 1, whatever the configured factor; `k` itself when the
/// request gives 0; otherwise `k` times the configured factor (taken as 1
/// when 0); every product saturating at `usize::MAX`.
pub proof fn law_search_k_overfetch(k: usize, config_overfetch: usize, overfetch: usize)
    ensures
        search_k_spec(k, false, config_overfetch, Some(overfetch)) == k,
        search_k_spec(k, false, config_overfetch, None) == k,
        overfetch >= 1 ==> search_k_spec(k, true, config_overfetch, Some(overfetch))
            == (if k * overfetch > usize::MAX { usize::MAX as int } else { k * overfetch }),
        search_k_spec(k, true, config_overfetch, Some(0)) == k,
        config_overfetch >= 1 ==> search_k_spec(k, true, config_overfetch, None)
            == (if k * config_overfetch > usize::MAX { usize::MAX as int } else { k * config_overfetch }),
        search_k_spec(k, true, 0, None) == k,
{
}

/// Metric names are matched exactly (case counts): `euclidean` selects the
/// Euclidean metric, `dot` and `dot_product` the dot product, and every other
/// name, or none, cosine.
pub proof fn law_metric_names(name: Seq<char>)
    ensures
        metric_named(Some("euclidean"@)) == Metric::Euclidean,
        metric_named(Some("dot"@)) == Metric::DotProduct,
        metric_named(Some("dot_product"@)) == Metric::DotProduct,
        metric_named(None) == Metric::Cosine,
        name != "euclidean"@ && name != "dot"@ && name != "dot_product"@ ==> metric_named(Some(name)) == Metric::Cosine,
{
    reveal_strlit("euclidean");
    reveal_strlit("dot");
    reveal_strlit("dot_product");
    assert("euclidean"@ != "dot"@) by { assert("euclidean"@[0] != "dot"@[0]); }
    assert("euclidean"@ != "dot_product"@) by { assert("euclidean"@[0] != "dot_product"@[0]); }
}

} // verus!
