//! The AutoEQ `ParametricEQ.txt` format.
//!
//! A file is read line by line. Each line is trimmed; empty lines and lines
//! starting with `#` are skipped. A `Preamp:` line sets the preamp from its
//! second token; a `Filter` line adds one filter, described by its tokens:
//! `Filter <n>: ON|OFF <type> [Fc <x>] [Gain <x>] [Q <x>] ...`. Other lines are
//! ignored. Each number is kept as the exact token of the file, which is known
//! to be one that `str::parse::<f64>` accepts (see `number`).

use vstd::prelude::*;
use vstd::string::*;
use crate::number::{all_digits, is_decimal, is_float_span, is_float_text, is_mantissa};
use crate::text::{
    chars_of, line_end, lemma_next_newline_bounds, next_newline, span, span_eq, span_starts_with,
    spans, split_span, split_ws, starts_with, substring, trim, trim_span,
};

verus! {

/// The kind of a parametric EQ band.
#[derive(Debug, Clone, Copy, PartialEq, Eq, Structural)]
pub enum FilterType {
    Peaking,
    LowShelf,
    HighShelf,
    LowPass,
    HighPass,
}

/// One band of a profile. The numbers are the tokens of the file.
#[derive(Debug, Clone)]
pub struct ParametricFilter {
    pub enabled: bool,
    pub filter_type: FilterType,
    pub frequency_hz: String,
    pub gain_db: String,
    pub q: String,
}

/// A parsed profile: the preamp and the bands in file order.
#[derive(Debug, Clone)]
pub struct AutoEqProfile {
    pub preamp_db: String,
    pub filters: Vec<ParametricFilter>,
}

/// Why a profile was refused.
#[derive(Debug, Clone)]
pub enum ParseError {
    InvalidPreamp(String),
    InvalidFilter { line_num: usize, detail: String },
    UnknownFilterType(String),
}

/// The value a `ParametricFilter` stands for.
pub struct FilterModel {
    pub enabled: bool,
    pub filter_type: FilterType,
    pub frequency_hz: Seq<char>,
    pub gain_db: Seq<char>,
    pub q: Seq<char>,
}

/// The value an `AutoEqProfile` stands for.
pub struct ProfileModel {
    pub preamp_db: Seq<char>,
    pub filters: Seq<FilterModel>,
}

/// The value a `ParseError` stands for.
pub enum ParseErrorModel {
    InvalidPreamp(Seq<char>),
    InvalidFilter { line_num: nat, detail: Seq<char> },
    UnknownFilterType(Seq<char>),
}

impl View for ParametricFilter {
    type V = FilterModel;

    open spec fn view(&self) -> FilterModel {
        FilterModel {
            enabled: self.enabled,
            filter_type: self.filter_type,
            frequency_hz: self.frequency_hz@,
            gain_db: self.gain_db@,
            q: self.q@,
        }
    }
}

impl View for AutoEqProfile {
    type V = ProfileModel;

    open spec fn view(&self) -> ProfileModel {
        ProfileModel {
            preamp_db: self.preamp_db@,
            filters: self.filters@.map_values(|f: ParametricFilter| f@),
        }
    }
}

impl View for ParseError {
    type V = ParseErrorModel;

    open spec fn view(&self) -> ParseErrorModel {
        match self {
            ParseError::InvalidPreamp(s) => ParseErrorModel::InvalidPreamp(s@),
            ParseError::InvalidFilter { line_num, detail } => ParseErrorModel::InvalidFilter {
                line_num: *line_num as nat,
                detail: detail@,
            },
            ParseError::UnknownFilterType(s) => ParseErrorModel::UnknownFilterType(s@),
        }
    }
}

/// The value of a parse result.
pub open spec fn result_model(r: Result<AutoEqProfile, ParseError>) -> Result<ProfileModel, ParseErrorModel> {
    match r {
        Ok(p) => Ok(p@),
        Err(e) => Err(e@),
    }
}

/// Every number of the profile is a token that `str::parse::<f64>` accepts.
pub open spec fn numbers_valid(p: ProfileModel) -> bool {
    &&& is_float_text(p.preamp_db)
    &&& forall|i: int|
        0 <= i < p.filters.len() ==> {
            &&& is_float_text(#[trigger] p.filters[i].frequency_hz)
            &&& is_float_text(p.filters[i].gain_db)
            &&& is_float_text(p.filters[i].q)
        }
}

/// The band kind that a type token names.
pub open spec fn filter_type_of(t: Seq<char>) -> Option<FilterType> {
    if t == "PK"@ || t == "PEQ"@ {
        Some(FilterType::Peaking)
    } else if t == "LSC"@ || t == "LS"@ {
        Some(FilterType::LowShelf)
    } else if t == "HSC"@ || t == "HS"@ {
        Some(FilterType::HighShelf)
    } else if t == "LP"@ {
        Some(FilterType::LowPass)
    } else if t == "HP"@ {
        Some(FilterType::HighPass)
    } else {
        None
    }
}

/// The three numbers of a band while its tokens are read.
pub struct BandNumbers {
    pub frequency_hz: Seq<char>,
    pub gain_db: Seq<char>,
    pub q: Seq<char>,
}

/// The numbers a band has before any of its keywords: 0, 0 and a Q of 0.707.
pub open spec fn default_numbers() -> BandNumbers {
    BandNumbers { frequency_hz: "0.0"@, gain_db: "0.0"@, q: "0.707"@ }
}

/// Reading token `j` of a filter line: a keyword `Fc`, `Gain` or `Q` that has a
/// token after it sets that number from it, which must be a number.
pub open spec fn keyword_step(parts: Seq<Seq<char>>, j: int, n: BandNumbers, line_num: nat) -> Result<
    BandNumbers,
    ParseErrorModel,
> {
    if j + 1 < parts.len() {
        let v = parts[j + 1];
        if parts[j] == "Fc"@ {
            if is_float_text(v) {
                Ok(BandNumbers { frequency_hz: v, ..n })
            } else {
                Err(ParseErrorModel::InvalidFilter { line_num, detail: "Invalid Fc"@ })
            }
        } else if parts[j] == "Gain"@ {
            if is_float_text(v) {
                Ok(BandNumbers { gain_db: v, ..n })
            } else {
                Err(ParseErrorModel::InvalidFilter { line_num, detail: "Invalid Gain"@ })
            }
        } else if parts[j] == "Q"@ {
            if is_float_text(v) {
                Ok(BandNumbers { q: v, ..n })
            } else {
                Err(ParseErrorModel::InvalidFilter { line_num, detail: "Invalid Q"@ })
            }
        } else {
            Ok(n)
        }
    } else {
        Ok(n)
    }
}

/// The numbers of a band after its tokens `4..k` have been read in order.
pub open spec fn scan_numbers(parts: Seq<Seq<char>>, k: int, line_num: nat) -> Result<
    BandNumbers,
    ParseErrorModel,
>
    decreases k,
{
    if k <= 4 {
        Ok(default_numbers())
    } else {
        match scan_numbers(parts, k - 1, line_num) {
            Err(e) => Err(e),
            Ok(n) => keyword_step(parts, k - 1, n, line_num),
        }
    }
}

/// The band that the tokens of a filter line describe.
pub open spec fn filter_of(parts: Seq<Seq<char>>, line_num: nat) -> Result<FilterModel, ParseErrorModel> {
    if parts.len() < 4 {
        Err(ParseErrorModel::InvalidFilter { line_num, detail: "Too few tokens"@ })
    } else if parts[2] != "ON"@ && parts[2] != "OFF"@ {
        Err(ParseErrorModel::InvalidFilter { line_num, detail: "Expected ON/OFF"@ })
    } else {
        match filter_type_of(parts[3]) {
            None => Err(ParseErrorModel::UnknownFilterType(parts[3])),
            Some(ft) => match scan_numbers(parts, parts.len() as int, line_num) {
                Err(e) => Err(e),
                Ok(n) => Ok(
                    FilterModel {
                        enabled: parts[2] == "ON"@,
                        filter_type: ft,
                        frequency_hz: n.frequency_hz,
                        gain_db: n.gain_db,
                        q: n.q,
                    },
                ),
            },
        }
    }
}

/// What one line contributes.
pub enum LineModel {
    Preamp(Seq<char>),
    Filter(FilterModel),
}

/// What the line `raw`, numbered `line_num`, contributes: nothing, a preamp or
/// a band; or why it is refused.
pub open spec fn line_effect(raw: Seq<char>, line_num: nat) -> Result<Option<LineModel>, ParseErrorModel> {
    let line = trim(raw);
    if line.len() == 0 || line[0] == '#' {
        Ok(None)
    } else if starts_with(line, "Preamp:"@) {
        let parts = split_ws(line);
        if parts.len() >= 2 && is_float_text(parts[1]) {
            Ok(Some(LineModel::Preamp(parts[1])))
        } else {
            Err(ParseErrorModel::InvalidPreamp(line))
        }
    } else if starts_with(line, "Filter"@) {
        match filter_of(split_ws(line), line_num) {
            Err(e) => Err(e),
            Ok(f) => Ok(Some(LineModel::Filter(f))),
        }
    } else {
        Ok(None)
    }
}

/// The profile after a line's contribution: a preamp replaces the preamp, a
/// band is appended.
pub open spec fn apply_line(p: ProfileModel, item: Option<LineModel>) -> ProfileModel {
    match item {
        None => p,
        Some(LineModel::Preamp(v)) => ProfileModel { preamp_db: v, filters: p.filters },
        Some(LineModel::Filter(f)) => ProfileModel { preamp_db: p.preamp_db, filters: p.filters.push(f) },
    }
}

/// The profile that the lines of `c` from position `pos` on (the first of them
/// numbered `line_num`) make of `p`. Lines end at `'\n'`; the first refused
/// line ends the reading with its error.
pub open spec fn parse_from(c: Seq<char>, pos: int, line_num: nat, p: ProfileModel) -> Result<
    ProfileModel,
    ParseErrorModel,
>
    decreases c.len() - pos,
{
    if pos < 0 {
        Ok(p)
    } else {
        let e = next_newline(c, pos);
        proof {
            lemma_next_newline_bounds(c, pos);
        }
        match line_effect(c.subrange(pos, e), line_num) {
            Err(err) => Err(err),
            Ok(item) => if e < c.len() {
                parse_from(c, e + 1, line_num + 1, apply_line(p, item))
            } else {
                Ok(apply_line(p, item))
            },
        }
    }
}

/// A profile with a preamp of 0 and no bands.
pub open spec fn empty_profile() -> ProfileModel {
    ProfileModel { preamp_db: "0.0"@, filters: Seq::empty() }
}

/// The result of parsing the text `c`: its lines, numbered from 1, applied in
/// order to the empty profile.
pub open spec fn parse_spec(c: Seq<char>) -> Result<ProfileModel, ParseErrorModel> {
    parse_from(c, 0, 1, empty_profile())
}


proof fn lemma_scan_error_persists(parts: Seq<Seq<char>>, j: int, k: int, line_num: nat)
    requires
        4 <= j <= k,
        scan_numbers(parts, j, line_num) is Err,
    ensures
        scan_numbers(parts, k, line_num) == scan_numbers(parts, j, line_num),
    decreases k - j,
{
    if k > j {
        lemma_scan_error_persists(parts, j, k - 1, line_num);
    }
}

proof fn lemma_default_numbers_are_floats()
    ensures
        is_float_text("0.0"@),
        is_float_text("0.707"@),
{
    reveal_strlit("0.0");
    reveal_strlit("0.707");
    let a = "0.0"@;
    assert(a[1] == '.' && all_digits(a.take(1)) && all_digits(a.skip(2)));
    assert(is_mantissa(a));
    assert(is_decimal(a));
    let b = "0.707"@;
    assert(b[1] == '.' && all_digits(b.take(1)) && all_digits(b.skip(2)));
    assert(is_mantissa(b));
    assert(is_decimal(b));
}

proof fn lemma_scan_numbers_are_floats(parts: Seq<Seq<char>>, k: int, line_num: nat)
    requires
        scan_numbers(parts, k, line_num) matches Ok(n),
    ensures
        scan_numbers(parts, k, line_num) matches Ok(n) && is_float_text(n.frequency_hz)
            && is_float_text(n.gain_db) && is_float_text(n.q),
    decreases k,
{
    if k <= 4 {
        lemma_default_numbers_are_floats();
    } else {
        lemma_scan_numbers_are_floats(parts, k - 1, line_num);
    }
}

proof fn lemma_line_numbers_are_floats(raw: Seq<char>, line_num: nat, p: ProfileModel)
    requires
        numbers_valid(p),
        line_effect(raw, line_num) matches Ok(item),
    ensures
        line_effect(raw, line_num) matches Ok(item) && numbers_valid(apply_line(p, item)),
{
    let line = trim(raw);
    if line.len() != 0 && line[0] != '#' && !starts_with(line, "Preamp:"@) && starts_with(
        line,
        "Filter"@,
    ) {
        let parts = split_ws(line);
        lemma_scan_numbers_are_floats(parts, parts.len() as int, line_num);
        let f = filter_of(parts, line_num)->Ok_0;
        let q = apply_line(p, line_effect(raw, line_num)->Ok_0);
        assert(q.filters == p.filters.push(f));
        assert forall|i: int| 0 <= i < q.filters.len() implies {
            &&& is_float_text(#[trigger] q.filters[i].frequency_hz)
            &&& is_float_text(q.filters[i].gain_db)
            &&& is_float_text(q.filters[i].q)
        } by {
            if i < p.filters.len() {
                assert(q.filters[i] == p.filters[i]);
            }
        }
    }
}

proof fn lemma_parse_from_numbers_are_floats(c: Seq<char>, pos: int, line_num: nat, p: ProfileModel)
    requires
        numbers_valid(p),
        parse_from(c, pos, line_num, p) is Ok,
    ensures
        parse_from(c, pos, line_num, p) matches Ok(r) && numbers_valid(r),
    decreases c.len() - pos,
{
    if pos >= 0 {
        let e = next_newline(c, pos);
        lemma_next_newline_bounds(c, pos);
        lemma_line_numbers_are_floats(c.subrange(pos, e), line_num, p);
        let item = line_effect(c.subrange(pos, e), line_num)->Ok_0;
        if e < c.len() {
            lemma_parse_from_numbers_are_floats(c, e + 1, line_num + 1, apply_line(p, item));
        }
    }
}

/// Every number of a profile that parses is a token that `str::parse::<f64>`
/// accepts: a parsed profile always has a value for each of its numbers.
pub proof fn law_parsed_numbers_are_floats(c: Seq<char>)
    ensures
        parse_spec(c) matches Ok(p) ==> numbers_valid(p),
{
    if parse_spec(c) is Ok {
        lemma_default_numbers_are_floats();
        lemma_parse_from_numbers_are_floats(c, 0, 1, empty_profile());
    }
}

/// The keyword of number `key` of a band: `Fc`, `Gain` or `Q`.
spec fn keyword_of(key: int) -> Seq<char> {
    if key == 0 {
        "Fc"@
    } else if key == 1 {
        "Gain"@
    } else {
        "Q"@
    }
}

/// Number `key` of a band: its frequency, gain or Q.
spec fn number_of(n: BandNumbers, key: int) -> Seq<char> {
    if key == 0 {
        n.frequency_hz
    } else if key == 1 {
        n.gain_db
    } else {
        n.q
    }
}

proof fn lemma_keywords_differ()
    ensures
        "Fc"@ != "Gain"@,
        "Fc"@ != "Q"@,
        "Gain"@ != "Q"@,
{
    reveal_strlit("Fc");
    reveal_strlit("Gain");
    reveal_strlit("Q");
    assert("Fc"@.len() != "Gain"@.len());
    assert("Fc"@.len() != "Q"@.len());
    assert("Gain"@.len() != "Q"@.len());
}

proof fn lemma_scan_ok_before(parts: Seq<Seq<char>>, k: int, m: int, line_num: nat)
    requires
        m <= k,
        scan_numbers(parts, k, line_num) is Ok,
    ensures
        scan_numbers(parts, m, line_num) is Ok,
    decreases k - m,
{
    if m < k && k > 4 {
        lemma_scan_ok_before(parts, k - 1, m, line_num);
    }
}

proof fn lemma_scan_last_keyword(parts: Seq<Seq<char>>, line_num: nat, key: int, j: int, k: int)
    requires
        0 <= key <= 2,
        4 <= j,
        j + 1 < parts.len(),
        parts[j] == keyword_of(key),
        forall|m: int| j < m && m + 1 < parts.len() ==> parts[m] != keyword_of(key),
        j + 1 <= k <= parts.len(),
        scan_numbers(parts, k, line_num) is Ok,
    ensures
        number_of(scan_numbers(parts, k, line_num)->Ok_0, key) == parts[j + 1],
    decreases k,
{
    lemma_keywords_differ();
    lemma_scan_ok_before(parts, k, k - 1, line_num);
    if k > j + 1 {
        lemma_scan_last_keyword(parts, line_num, key, j, k - 1);
    }
}

proof fn lemma_scan_no_keyword(parts: Seq<Seq<char>>, line_num: nat, key: int, k: int)
    requires
        0 <= key <= 2,
        forall|m: int| 4 <= m && m + 1 < parts.len() ==> parts[m] != keyword_of(key),
        k <= parts.len(),
        scan_numbers(parts, k, line_num) is Ok,
    ensures
        number_of(scan_numbers(parts, k, line_num)->Ok_0, key) == number_of(default_numbers(), key),
    decreases k,
{
    lemma_keywords_differ();
    if k > 4 {
        lemma_scan_ok_before(parts, k, k - 1, line_num);
        lemma_scan_no_keyword(parts, line_num, key, k - 1);
    }
}

/// A filter line's centre frequency is the token after its last `Fc` keyword
/// that has a token after it, whatever the band's type and the token's sign.
pub proof fn law_filter_frequency_is_last_fc_value(parts: Seq<Seq<char>>, line_num: nat, j: int)
    requires
        4 <= j,
        j + 1 < parts.len(),
        parts[j] == "Fc"@,
        forall|m: int| j < m && m + 1 < parts.len() ==> parts[m] != "Fc"@,
        filter_of(parts, line_num) is Ok,
    ensures
        filter_of(parts, line_num)->Ok_0.frequency_hz == parts[j + 1],
{
    lemma_scan_last_keyword(parts, line_num, 0, j, parts.len() as int);
}

/// A filter line's gain is the token after its last `Gain` keyword that has a
/// token after it, whatever the band's type and the token's sign.
pub proof fn law_filter_gain_is_last_gain_value(parts: Seq<Seq<char>>, line_num: nat, j: int)
    requires
        4 <= j,
        j + 1 < parts.len(),
        parts[j] == "Gain"@,
        forall|m: int| j < m && m + 1 < parts.len() ==> parts[m] != "Gain"@,
        filter_of(parts, line_num) is Ok,
    ensures
        filter_of(parts, line_num)->Ok_0.gain_db == parts[j + 1],
{
    lemma_scan_last_keyword(parts, line_num, 1, j, parts.len() as int);
}

/// A filter line's Q is the token after its last `Q` keyword that has a token
/// after it, whatever the band's type and the token's sign.
pub proof fn law_filter_q_is_last_q_value(parts: Seq<Seq<char>>, line_num: nat, j: int)
    requires
        4 <= j,
        j + 1 < parts.len(),
        parts[j] == "Q"@,
        forall|m: int| j < m && m + 1 < parts.len() ==> parts[m] != "Q"@,
        filter_of(parts, line_num) is Ok,
    ensures
        filter_of(parts, line_num)->Ok_0.q == parts[j + 1],
{
    lemma_scan_last_keyword(parts, line_num, 2, j, parts.len() as int);
}

/// A number whose keyword does not occur with a token after it keeps its
/// default: 0 Hz, 0 dB, and a Q of 0.707.
pub proof fn law_filter_defaults(parts: Seq<Seq<char>>, line_num: nat)
    requires
        filter_of(parts, line_num) is Ok,
    ensures
        (forall|m: int| 4 <= m && m + 1 < parts.len() ==> parts[m] != "Fc"@) ==> filter_of(
            parts,
            line_num,
        )->Ok_0.frequency_hz == "0.0"@,
        (forall|m: int| 4 <= m && m + 1 < parts.len() ==> parts[m] != "Gain"@) ==> filter_of(
            parts,
            line_num,
        )->Ok_0.gain_db == "0.0"@,
        (forall|m: int| 4 <= m && m + 1 < parts.len() ==> parts[m] != "Q"@) ==> filter_of(
            parts,
            line_num,
        )->Ok_0.q == "0.707"@,
{
    if forall|m: int| 4 <= m && m + 1 < parts.len() ==> parts[m] != "Fc"@ {
        lemma_scan_no_keyword(parts, line_num, 0, parts.len() as int);
    }
    if forall|m: int| 4 <= m && m + 1 < parts.len() ==> parts[m] != "Gain"@ {
        lemma_scan_no_keyword(parts, line_num, 1, parts.len() as int);
    }
    if forall|m: int| 4 <= m && m + 1 < parts.len() ==> parts[m] != "Q"@ {
        lemma_scan_no_keyword(parts, line_num, 2, parts.len() as int);
    }
}

/// A parsed filter line is enabled exactly when its third token is `ON`, and
/// its type is the one its fourth token names.
pub proof fn law_filter_state_and_type(parts: Seq<Seq<char>>, line_num: nat)
    requires
        filter_of(parts, line_num) is Ok,
    ensures
        filter_of(parts, line_num)->Ok_0.enabled == (parts[2] == "ON"@),
        parts[3] == "PK"@ || parts[3] == "PEQ"@ ==> filter_of(parts, line_num)->Ok_0.filter_type
            == FilterType::Peaking,
        parts[3] == "LSC"@ || parts[3] == "LS"@ ==> filter_of(parts, line_num)->Ok_0.filter_type
            == FilterType::LowShelf,
        parts[3] == "HSC"@ || parts[3] == "HS"@ ==> filter_of(parts, line_num)->Ok_0.filter_type
            == FilterType::HighShelf,
        parts[3] == "LP"@ ==> filter_of(parts, line_num)->Ok_0.filter_type == FilterType::LowPass,
        parts[3] == "HP"@ ==> filter_of(parts, line_num)->Ok_0.filter_type == FilterType::HighPass,
{
    reveal_strlit("PK");
    reveal_strlit("PEQ");
    reveal_strlit("LSC");
    reveal_strlit("LS");
    reveal_strlit("HSC");
    reveal_strlit("HS");
    reveal_strlit("LP");
    reveal_strlit("HP");
    assert("LSC"@[0] != "PK"@[0] && "LSC"@[0] != "PEQ"@[0]);
    assert("LS"@[0] != "PK"@[0] && "LS"@[0] != "PEQ"@[0]);
    assert("HSC"@[0] != "PK"@[0] && "HSC"@[0] != "PEQ"@[0] && "HSC"@[0] != "LSC"@[0] && "HSC"@[0]
        != "LS"@[0]);
    assert("HS"@[0] != "PK"@[0] && "HS"@[0] != "PEQ"@[0] && "HS"@[0] != "LSC"@[0] && "HS"@[0]
        != "LS"@[0]);
    assert("LP"@[0] != "PK"@[0] && "LP"@[0] != "PEQ"@[0] && "LP"@[0] != "HSC"@[0] && "LP"@[0]
        != "HS"@[0] && "LP"@[1] != "LS"@[1] && "LP"@.len() != "LSC"@.len());
    assert("HP"@[0] != "PK"@[0] && "HP"@[0] != "PEQ"@[0] && "HP"@[0] != "LSC"@[0] && "HP"@[0]
        != "LS"@[0] && "HP"@[1] != "HS"@[1] && "HP"@.len() != "HSC"@.len() && "HP"@[0] != "LP"@[0]);
}

proof fn lemma_no_newline(c: Seq<char>, from: int)
    requires
        0 <= from <= c.len(),
        forall|i: int| 0 <= i < c.len() ==> c[i] != '\n',
    ensures
        next_newline(c, from) == c.len(),
    decreases c.len() - from,
{
    if from < c.len() {
        lemma_no_newline(c, from + 1);
    }
}

proof fn lemma_newline_at(c: Seq<char>, from: int, m: int)
    requires
        0 <= from <= m < c.len(),
        c[m] == '\n',
        forall|i: int| from <= i < m ==> c[i] != '\n',
    ensures
        next_newline(c, from) == m,
    decreases m - from,
{
    if from < m {
        lemma_newline_at(c, from + 1, m);
    }
}

/// Reading more lines never removes or changes a band already read: the bands
/// of the profile so far stay, in order, at the front.
pub proof fn law_bands_are_kept(c: Seq<char>, pos: int, line_num: nat, p: ProfileModel)
    requires
        parse_from(c, pos, line_num, p) is Ok,
    ensures
        parse_from(c, pos, line_num, p)->Ok_0.filters.len() >= p.filters.len(),
        parse_from(c, pos, line_num, p)->Ok_0.filters.take(p.filters.len() as int) == p.filters,
    decreases c.len() - pos,
{
    if pos >= 0 {
        let e = next_newline(c, pos);
        lemma_next_newline_bounds(c, pos);
        let item = line_effect(c.subrange(pos, e), line_num)->Ok_0;
        let q = apply_line(p, item);
        assert(q.filters.take(p.filters.len() as int) =~= p.filters);
        if e < c.len() {
            law_bands_are_kept(c, e + 1, line_num + 1, q);
            let r = parse_from(c, e + 1, line_num + 1, q)->Ok_0;
            assert(r.filters.take(p.filters.len() as int) =~= r.filters.take(q.filters.len() as int).take(
                p.filters.len() as int,
            ));
        } else {
            assert(q.filters.take(p.filters.len() as int) =~= p.filters);
        }
    }
}

/// When a text that parses starts with a `Filter` line, the first band of the
/// profile is the band that this line's tokens describe, whatever follows.
pub proof fn law_first_filter_line_gives_first_band(line: Seq<char>, rest: Seq<char>)
    requires
        forall|i: int| 0 <= i < line.len() ==> line[i] != '\n',
        starts_with(trim(line), "Filter"@),
        parse_spec(line + seq!['\n'] + rest) is Ok,
    ensures
        filter_of(split_ws(trim(line)), 1) is Ok,
        parse_spec(line + seq!['\n'] + rest)->Ok_0.filters.len() >= 1,
        parse_spec(line + seq!['\n'] + rest)->Ok_0.filters[0] == filter_of(split_ws(trim(line)), 1)->Ok_0,
{
    reveal_strlit("Filter");
    reveal_strlit("Preamp:");
    let c = line + seq!['\n'] + rest;
    let m = line.len() as int;
    assert(c[m] == '\n');
    assert forall|i: int| 0 <= i < m implies c[i] != '\n' by {
        assert(c[i] == line[i]);
    }
    lemma_newline_at(c, 0, m);
    assert(c.subrange(0, m) =~= line);
    let t = trim(line);
    assert(t.take(6)[0] == 'F');
    assert(t[0] == 'F');
    assert(!starts_with(t, "Preamp:"@)) by {
        if starts_with(t, "Preamp:"@) {
            assert(t.take(7)[0] == 'P');
        }
    }
    let f = filter_of(split_ws(t), 1)->Ok_0;
    let q = apply_line(empty_profile(), Some(LineModel::Filter(f)));
    law_bands_are_kept(c, m + 1, 2, q);
    let r = parse_from(c, m + 1, 2, q)->Ok_0;
    assert(q.filters.len() == 1);
    assert(r.filters.take(1)[0] == r.filters[0]);
}

/// A text of one `Filter` line parses to a profile with the default preamp
/// and exactly the band that the line's tokens describe, or to that line's error.
pub proof fn law_parse_single_filter_line(c: Seq<char>)
    requires
        forall|i: int| 0 <= i < c.len() ==> c[i] != '\n',
        starts_with(trim(c), "Filter"@),
    ensures
        parse_spec(c) == match filter_of(split_ws(trim(c)), 1) {
            Ok(f) => Ok(ProfileModel { preamp_db: "0.0"@, filters: seq![f] }),
            Err(e) => Err::<ProfileModel, ParseErrorModel>(e),
        },
{
    reveal_strlit("Filter");
    reveal_strlit("Preamp:");
    lemma_no_newline(c, 0);
    assert(c.subrange(0, c.len() as int) =~= c);
    let line = trim(c);
    assert(line.take(6)[0] == 'F');
    assert(line[0] == 'F');
    assert(!starts_with(line, "Preamp:"@)) by {
        if starts_with(line, "Preamp:"@) {
            assert(line.take(7)[0] == 'P');
        }
    }
    assert(Seq::<FilterModel>::empty().push(filter_of(split_ws(line), 1)->Ok_0) =~= seq![
        filter_of(split_ws(line), 1)->Ok_0,
    ]);
}

/// A text of one `Preamp:` line parses to a profile with no band whose preamp is
/// the line's second token, or is refused with the trimmed line when that
/// token is missing or is not a number.
pub proof fn law_parse_single_preamp_line(c: Seq<char>)
    requires
        forall|i: int| 0 <= i < c.len() ==> c[i] != '\n',
        starts_with(trim(c), "Preamp:"@),
    ensures
        split_ws(trim(c)).len() >= 2 && is_float_text(split_ws(trim(c))[1]) ==> parse_spec(c) == Ok::<
            ProfileModel,
            ParseErrorModel,
        >(ProfileModel { preamp_db: split_ws(trim(c))[1], filters: Seq::empty() }),
        !(split_ws(trim(c)).len() >= 2 && is_float_text(split_ws(trim(c))[1])) ==> parse_spec(c)
            == Err::<ProfileModel, ParseErrorModel>(ParseErrorModel::InvalidPreamp(trim(c))),
{
    reveal_strlit("Preamp:");
    lemma_no_newline(c, 0);
    assert(c.subrange(0, c.len() as int) =~= c);
    let line = trim(c);
    assert(line.take(7)[0] == 'P');
    assert(line[0] == 'P');
}

/// The band kind that the span `lo..hi` of `c` names.
fn filter_type_of_span(c: &Vec<char>, lo: usize, hi: usize) -> (r: Option<FilterType>)
    requires
        lo <= hi <= c.len(),
    ensures
        r == filter_type_of(span(c@, lo as int, hi as int)),
{
    if span_eq(c, lo, hi, "PK") || span_eq(c, lo, hi, "PEQ") {
        Some(FilterType::Peaking)
    } else if span_eq(c, lo, hi, "LSC") || span_eq(c, lo, hi, "LS") {
        Some(FilterType::LowShelf)
    } else if span_eq(c, lo, hi, "HSC") || span_eq(c, lo, hi, "HS") {
        Some(FilterType::HighShelf)
    } else if span_eq(c, lo, hi, "LP") {
        Some(FilterType::LowPass)
    } else if span_eq(c, lo, hi, "HP") {
        Some(FilterType::HighPass)
    } else {
        None
    }
}

spec fn filter_result_model(r: Result<ParametricFilter, ParseError>) -> Result<FilterModel, ParseErrorModel> {
    match r {
        Ok(f) => Ok(f@),
        Err(e) => Err(e@),
    }
}

/// The band that the tokens `parts` of a filter line describe.
fn filter_of_tokens(content: &str, c: &Vec<char>, parts: &Vec<(usize, usize)>, line_num: usize) -> (r:
    Result<ParametricFilter, ParseError>)
    requires
        c@ == content@,
        forall|k: int| 0 <= k < parts.len() ==> #[trigger] parts@[k].0 <= parts@[k].1 <= c.len(),
    ensures
        filter_result_model(r) == filter_of(spans(c@, parts@), line_num as nat),
{
    let ghost pm = spans(c@, parts@);
    let ghost ln = line_num as nat;
    let n = parts.len();
    if n < 4 {
        return Err(
            ParseError::InvalidFilter { line_num, detail: String::from_str("Too few tokens") },
        );
    }
    let (sa, sb) = parts[2];
    assert(pm[2] == span(c@, sa as int, sb as int));
    assert(pm[3] == span(c@, parts@[3].0 as int, parts@[3].1 as int));
    let on = span_eq(c, sa, sb, "ON");
    if !on && !span_eq(c, sa, sb, "OFF") {
        return Err(
            ParseError::InvalidFilter { line_num, detail: String::from_str("Expected ON/OFF") },
        );
    }
    let (ta, tb) = parts[3];
    let filter_type = match filter_type_of_span(c, ta, tb) {
        Some(ft) => ft,
        None => {
            return Err(ParseError::UnknownFilterType(substring(content, ta, tb)));
        },
    };
    let mut frequency_hz = String::from_str("0.0");
    let mut gain_db = String::from_str("0.0");
    let mut q = String::from_str("0.707");
    let mut j: usize = 4;
    while j < n
        invariant
            4 <= j <= n == parts.len(),
            pm == spans(c@, parts@),
            pm.len() == n,
            pm[2] == "ON"@ || pm[2] == "OFF"@,
            on == (pm[2] == "ON"@),
            filter_type_of(pm[3]) == Some(filter_type),
            ln == line_num as nat,
            c@ == content@,
            forall|k: int| 0 <= k < parts.len() ==> #[trigger] parts@[k].0 <= parts@[k].1 <= c.len(),
            scan_numbers(pm, j as int, ln) == Ok::<BandNumbers, ParseErrorModel>(
                BandNumbers { frequency_hz: frequency_hz@, gain_db: gain_db@, q: q@ },
            ),
        decreases n - j,
    {
        let (ka, kb) = parts[j];
        assert(pm[j as int] == span(c@, ka as int, kb as int));
        if j + 1 < n {
            let (va, vb) = parts[j + 1];
            assert(pm[j + 1] == span(c@, va as int, vb as int));
            if span_eq(c, ka, kb, "Fc") {
                if is_float_span(c, va, vb) {
                    frequency_hz = substring(content, va, vb);
                } else {
                    proof {
                        lemma_scan_error_persists(pm, j + 1, n as int, ln);
                    }
                    return Err(
                        ParseError::InvalidFilter { line_num, detail: String::from_str("Invalid Fc") },
                    );
                }
            } else if span_eq(c, ka, kb, "Gain") {
                if is_float_span(c, va, vb) {
                    gain_db = substring(content, va, vb);
                } else {
                    proof {
                        lemma_scan_error_persists(pm, j + 1, n as int, ln);
                    }
                    return Err(
                        ParseError::InvalidFilter {
                            line_num,
                            detail: String::from_str("Invalid Gain"),
                        },
                    );
                }
            } else if span_eq(c, ka, kb, "Q") {
                if is_float_span(c, va, vb) {
                    q = substring(content, va, vb);
                } else {
                    proof {
                        lemma_scan_error_persists(pm, j + 1, n as int, ln);
                    }
                    return Err(
                        ParseError::InvalidFilter { line_num, detail: String::from_str("Invalid Q") },
                    );
                }
            }
        }
        j = j + 1;
    }
    Ok(ParametricFilter { enabled: on, filter_type, frequency_hz, gain_db, q })
}

/// What a line contributes, in executable form.
enum LineEntry {
    Preamp(String),
    Filter(ParametricFilter),
}

spec fn entry_model(r: Result<Option<LineEntry>, ParseError>) -> Result<Option<LineModel>, ParseErrorModel> {
    match r {
        Ok(None) => Ok(None),
        Ok(Some(LineEntry::Preamp(s))) => Ok(Some(LineModel::Preamp(s@))),
        Ok(Some(LineEntry::Filter(f))) => Ok(Some(LineModel::Filter(f@))),
        Err(e) => Err(e@),
    }
}

/// What the line `lo..hi` of `c`, preceded by `newlines` line ends, contributes.
fn parse_line(content: &str, c: &Vec<char>, lo: usize, hi: usize, newlines: usize) -> (r: Result<
    Option<LineEntry>,
    ParseError,
>)
    requires
        c@ == content@,
        lo <= hi <= c.len(),
        newlines <= lo,
    ensures
        entry_model(r) == line_effect(span(c@, lo as int, hi as int), newlines as nat + 1),
{
    let (a, b) = trim_span(c, lo, hi);
    if a == b || c[a] == '#' {
        return Ok(None);
    }
    assert(trim(span(c@, lo as int, hi as int))[0] == c@[a as int]);
    if span_starts_with(c, a, b, "Preamp:") {
        let parts = split_span(c, a, b);
        if parts.len() >= 2 {
            let (pa, pb) = parts[1];
            assert(spans(c@, parts@)[1] == span(c@, pa as int, pb as int));
            if is_float_span(c, pa, pb) {
                return Ok(Some(LineEntry::Preamp(substring(content, pa, pb))));
            }
        }
        return Err(ParseError::InvalidPreamp(substring(content, a, b)));
    }
    if span_starts_with(c, a, b, "Filter") {
        let parts = split_span(c, a, b);
        let line_num = newlines + 1;
        return match filter_of_tokens(content, c, &parts, line_num) {
            Ok(f) => Ok(Some(LineEntry::Filter(f))),
            Err(e) => Err(e),
        };
    }
    Ok(None)
}

impl AutoEqProfile {
    /// Parses the text of a `ParametricEQ.txt` file.
    pub fn parse(content: &str) -> (res: Result<Self, ParseError>)
        ensures
            result_model(res) == parse_spec(content@),
    {
        let c = chars_of(content);
        let mut preamp_db = String::from_str("0.0");
        let mut filters: Vec<ParametricFilter> = Vec::new();
        let mut pos: usize = 0;
        let mut newlines: usize = 0;
        assert(filters@.map_values(|f: ParametricFilter| f@) =~= Seq::<FilterModel>::empty());
        loop
            invariant
                c@ == content@,
                pos <= c.len(),
                newlines <= pos,
                parse_from(
                    c@,
                    pos as int,
                    newlines as nat + 1,
                    ProfileModel {
                        preamp_db: preamp_db@,
                        filters: filters@.map_values(|f: ParametricFilter| f@),
                    },
                ) == parse_spec(c@),
            decreases c.len() - pos,
        {
            let ghost p = ProfileModel {
                preamp_db: preamp_db@,
                filters: filters@.map_values(|f: ParametricFilter| f@),
            };
            let e = line_end(&c, pos);
            proof {
                lemma_next_newline_bounds(c@, pos as int);
            }
            let item = parse_line(content, &c, pos, e, newlines);
            match item {
                Err(err) => {
                    return Err(err);
                },
                Ok(None) => {},
                Ok(Some(LineEntry::Preamp(v))) => {
                    preamp_db = v;
                },
                Ok(Some(LineEntry::Filter(f))) => {
                    let ghost old_filters = filters@;
                    filters.push(f);
                    assert(filters@.map_values(|f: ParametricFilter| f@) =~= old_filters.map_values(
                        |f: ParametricFilter| f@,
                    ).push(f@));
                },
            }
            if e == c.len() {
                return Ok(AutoEqProfile { preamp_db, filters });
            }
            pos = e + 1;
            newlines = newlines + 1;
        }
    }
}

} // verus!
