//! Pattern-based field extraction over character sequences: substring
//! search, splitting on a separator, trimming, and the composition of the
//! three that pulls one table cell's value out of a fetched page.

use vstd::prelude::*;
use vstd::slice::slice_subrange;

use crate::parcel::ParcelData;
use crate::text::{chars_to_string, str_chars};

verus! {

/// `pat` occurs in `text` at position `i`.
pub open spec fn match_at(text: Seq<char>, pat: Seq<char>, i: int) -> bool {
    &&& 0 <= i
    &&& i + pat.len() <= text.len()
    &&& text.subrange(i, i + pat.len() as int) == pat
}

/// The first position at or after `i` where `pat` occurs in `text`, or -1
/// when it never does. An empty pattern occurs everywhere.
pub open spec fn first_match_from(text: Seq<char>, pat: Seq<char>, i: int) -> int
    decreases text.len() - i,
{
    if i < 0 || i + pat.len() > text.len() {
        -1
    } else if pat.len() == 0 {
        i
    } else if match_at(text, pat, i) {
        i
    } else {
        first_match_from(text, pat, i + 1)
    }
}

pub proof fn lemma_first_match_props(text: Seq<char>, pat: Seq<char>, i: int)
    requires
        0 <= i,
    ensures
        ({
            let m = first_match_from(text, pat, i);
            &&& m == -1 ==> forall|j: int| i <= j ==> !match_at(text, pat, j)
            &&& m >= 0 ==> i <= m && match_at(text, pat, m) && (forall|j: int|
                i <= j < m ==> !match_at(text, pat, j))
            &&& m >= -1
        }),
    decreases text.len() - i,
{
    let m = first_match_from(text, pat, i);
    if i + pat.len() > text.len() {
        assert(forall|j: int| i <= j ==> !match_at(text, pat, j));
    } else if pat.len() == 0 {
        assert(text.subrange(i, i) =~= pat);
        assert(match_at(text, pat, i));
    } else if match_at(text, pat, i) {
    } else {
        lemma_first_match_props(text, pat, i + 1);
    }
}

proof fn lemma_first_match_shift(text: Seq<char>, pat: Seq<char>, start: int, j: int)
    requires
        0 <= start <= text.len(),
        0 <= j,
    ensures
        ({
            let m = first_match_from(text, pat, start + j);
            let ms = first_match_from(text.skip(start), pat, j);
            &&& m == -1 ==> ms == -1
            &&& m >= 0 ==> ms == m - start
        }),
    decreases text.len() - start - j,
{
    let s2 = text.skip(start);
    if start + j + pat.len() > text.len() {
    } else {
        assert(s2.subrange(j, j + pat.len() as int) =~= text.subrange(
            start + j,
            start + j + pat.len() as int,
        ));
        if pat.len() == 0 {
        } else if match_at(text, pat, start + j) {
            assert(match_at(s2, pat, j));
        } else {
            assert(!match_at(s2, pat, j));
            lemma_first_match_shift(text, pat, start, j + 1);
        }
    }
}

/// `text` split on every occurrence of `pat`, leftmost first, separators
/// removed. A pattern that never occurs, like an empty one, splits nothing:
/// the result is the single segment `text`.
pub open spec fn split_seq(text: Seq<char>, pat: Seq<char>) -> Seq<Seq<char>>
    decreases text.len(),
{
    if pat.len() == 0 {
        seq![text]
    } else {
        let m = first_match_from(text, pat, 0);
        if m < 0 {
            seq![text]
        } else if m + pat.len() <= text.len() {
            // the guard holds whenever m >= 0; it carries the termination bound
            seq![text.take(m)] + split_seq(text.skip(m + pat.len() as int), pat)
        } else {
            seq![text]
        }
    }
}

/// Every split has at least one segment.
pub proof fn lemma_split_seq_nonempty(text: Seq<char>, pat: Seq<char>)
    ensures
        split_seq(text, pat).len() >= 1,
{
}

proof fn lemma_split_at_suffix(text: Seq<char>, pat: Seq<char>, start: int)
    requires
        0 <= start <= text.len(),
        pat.len() > 0,
    ensures
        ({
            let m = first_match_from(text, pat, start);
            &&& m == -1 ==> split_seq(text.skip(start), pat) == seq![text.skip(start)]
            &&& m >= 0 ==> m + pat.len() <= text.len() && split_seq(text.skip(start), pat)
                == seq![text.subrange(start, m)] + split_seq(text.skip(m + pat.len() as int), pat)
        }),
{
    lemma_first_match_shift(text, pat, start, 0);
    lemma_first_match_props(text, pat, start);
    let m = first_match_from(text, pat, start);
    let s2 = text.skip(start);
    if m >= 0 {
        let ms = m - start;
        assert(first_match_from(s2, pat, 0) == ms);
        assert(s2.take(ms) =~= text.subrange(start, m));
        assert(s2.skip(ms + pat.len() as int) =~= text.skip(m + pat.len() as int));
        assert(split_seq(s2, pat) == seq![s2.take(ms)] + split_seq(
            s2.skip(ms + pat.len() as int),
            pat,
        ));
    }
}

fn is_match_at(text: &[char], pat: &[char], i: usize) -> (r: bool)
    requires
        i <= text@.len(),
    ensures
        r == match_at(text@, pat@, i as int),
{
    let n = text.len();
    if pat.len() > n - i {
        return false;
    }
    let mut j: usize = 0;
    while j < pat.len()
        invariant
            n == text@.len(),
            i + pat@.len() <= n,
            j <= pat@.len(),
            forall|t: int| 0 <= t < j ==> text@[i + t] == pat@[t],
        decreases pat@.len() - j,
    {
        if text[i + j] != pat[j] {
            proof {
                assert(text@.subrange(i as int, i + pat@.len() as int)[j as int] == text@[i + j]);
            }
            return false;
        }
        j += 1;
    }
    proof {
        assert(text@.subrange(i as int, i + pat@.len() as int) =~= pat@);
    }
    true
}

fn find_match(text: &[char], pat: &[char], from: usize) -> (r: Option<usize>)
    requires
        from <= text@.len(),
    ensures
        match r {
            Some(m) => from <= m && m as int == first_match_from(text@, pat@, from as int),
            None => first_match_from(text@, pat@, from as int) == -1,
        },
{
    let mut i = from;
    while pat.len() <= text.len() - i
        invariant
            from <= i <= text@.len(),
            first_match_from(text@, pat@, from as int) == first_match_from(text@, pat@, i as int),
        decreases text@.len() - i,
    {
        if is_match_at(text, pat, i) {
            return Some(i);
        }
        proof {
            if pat@.len() == 0 {
                assert(text@.subrange(i as int, i as int) =~= pat@);
                assert(false);
            }
        }
        i += 1;
    }
    None
}

/// The segment at position `index` of `text` split on `split_by`, or `None`
/// when the split has fewer segments.
pub fn split_and_get<'a>(text: &'a [char], split_by: &[char], index: usize) -> (r: Option<
    &'a [char],
>)
    ensures
        match r {
            Some(s) => index < split_seq(text@, split_by@).len() && s@ == split_seq(
                text@,
                split_by@,
            )[index as int],
            None => index >= split_seq(text@, split_by@).len(),
        },
{
    let ghost parts = split_seq(text@, split_by@);
    if split_by.len() == 0 {
        if index == 0 {
            return Some(text);
        } else {
            return None;
        }
    }
    let mut start: usize = 0;
    let mut k: usize = 0;
    proof {
        assert(text@.skip(0) =~= text@);
        assert(parts.skip(0) =~= parts);
    }
    loop
        invariant
            split_by@.len() > 0,
            start <= text@.len(),
            k <= index,
            k <= parts.len(),
            parts == split_seq(text@, split_by@),
            parts.skip(k as int) == split_seq(text@.skip(start as int), split_by@),
        decreases index - k,
    {
        proof {
            lemma_split_at_suffix(text@, split_by@, start as int);
        }
        let ghost suffix = split_seq(text@.skip(start as int), split_by@);
        proof {
            lemma_split_seq_nonempty(text@.skip(start as int), split_by@);
            assert(parts.len() - k == suffix.len());
        }
        match find_match(text, split_by, start) {
            Some(m) => {
                if k == index {
                    let out = slice_subrange(text, start, m);
                    proof {
                        assert(suffix[0] == text@.subrange(start as int, m as int));
                        assert(parts[k as int] == suffix[0]);
                    }
                    return Some(out);
                }
                proof {
                    assert(suffix.len() >= 2);
                    assert(parts.skip(k as int).drop_first() =~= parts.skip(k + 1 as int));
                    assert(suffix.drop_first() =~= split_seq(
                        text@.skip(m + split_by@.len() as int),
                        split_by@,
                    ));
                }
                assert(m + split_by@.len() <= text.len());
                start = m + split_by.len();
                k = k + 1;
            },
            None => {
                if k == index {
                    let out = slice_subrange(text, start, text.len());
                    proof {
                        assert(text@.subrange(start as int, text@.len() as int) =~= text@.skip(
                            start as int,
                        ));
                        assert(parts[k as int] == suffix[0]);
                        assert(suffix[0] == text@.skip(start as int));
                    }
                    return Some(out);
                }
                proof {
                    assert(parts.len() == k + 1);
                }
                return None;
            },
        }
    }
}

/// `pat` occurs somewhere in `text`.
pub open spec fn contains_seq(text: Seq<char>, pat: Seq<char>) -> bool {
    first_match_from(text, pat, 0) >= 0
}

pub fn contains_chars(text: &[char], pat: &[char]) -> (r: bool)
    ensures
        r == contains_seq(text@, pat@),
{
    match find_match(text, pat, 0) {
        Some(_) => true,
        None => false,
    }
}

/// A whitespace character, as `trim` understands it.
pub open spec fn is_space(c: char) -> bool {
    ||| c == '\u{0009}'
    ||| c == '\u{000A}'
    ||| c == '\u{000B}'
    ||| c == '\u{000C}'
    ||| c == '\u{000D}'
    ||| c == '\u{0020}'
    ||| c == '\u{0085}'
    ||| c == '\u{00A0}'
    ||| c == '\u{1680}'
    ||| ('\u{2000}' <= c && c <= '\u{200A}')
    ||| c == '\u{2028}'
    ||| c == '\u{2029}'
    ||| c == '\u{202F}'
    ||| c == '\u{205F}'
    ||| c == '\u{3000}'
}

fn is_space_char(c: char) -> (r: bool)
    ensures
        r == is_space(c),
{
    c == '\u{0009}' || c == '\u{000A}' || c == '\u{000B}' || c == '\u{000C}' || c == '\u{000D}'
        || c == '\u{0020}' || c == '\u{0085}' || c == '\u{00A0}' || c == '\u{1680}' || ('\u{2000}'
        <= c && c <= '\u{200A}') || c == '\u{2028}' || c == '\u{2029}' || c == '\u{202F}' || c
        == '\u{205F}' || c == '\u{3000}'
}

pub open spec fn trim_front(s: Seq<char>) -> Seq<char>
    decreases s.len(),
{
    if s.len() > 0 && is_space(s.first()) {
        trim_front(s.drop_first())
    } else {
        s
    }
}

pub open spec fn trim_back(s: Seq<char>) -> Seq<char>
    decreases s.len(),
{
    if s.len() > 0 && is_space(s.last()) {
        trim_back(s.drop_last())
    } else {
        s
    }
}

/// `s` without leading and trailing whitespace.
pub open spec fn trim_seq(s: Seq<char>) -> Seq<char> {
    trim_back(trim_front(s))
}

fn trim_slice<'a>(s: &'a [char]) -> (r: &'a [char])
    ensures
        r@ == trim_seq(s@),
{
    let n = s.len();
    let mut a: usize = 0;
    proof {
        assert(s@.skip(0) =~= s@);
    }
    while a < n && is_space_char(s[a])
        invariant
            a <= n,
            n == s@.len(),
            trim_front(s@) == trim_front(s@.skip(a as int)),
        decreases n - a,
    {
        proof {
            assert(s@.skip(a as int).first() == s@[a as int]);
            assert(s@.skip(a as int).drop_first() =~= s@.skip(a + 1 as int));
        }
        a += 1;
    }
    proof {
        if a < n {
            assert(s@.skip(a as int).first() == s@[a as int]);
        }
        assert(trim_front(s@) == s@.skip(a as int));
    }
    let mut b: usize = n;
    proof {
        assert(s@.subrange(a as int, b as int) =~= s@.skip(a as int));
    }
    while b > a && is_space_char(s[b - 1])
        invariant
            a <= b <= n,
            n == s@.len(),
            trim_back(s@.skip(a as int)) == trim_back(s@.subrange(a as int, b as int)),
        decreases b,
    {
        proof {
            assert(s@.subrange(a as int, b as int).last() == s@[b - 1]);
            assert(s@.subrange(a as int, b as int).drop_last() =~= s@.subrange(a as int, b - 1));
        }
        b -= 1;
    }
    proof {
        if b > a {
            assert(s@.subrange(a as int, b as int).last() == s@[b - 1]);
        }
        assert(trim_back(s@.subrange(a as int, b as int)) == s@.subrange(a as int, b as int));
    }
    slice_subrange(s, a, b)
}

/// The first `n` characters of `s`, or all of `s` when it is shorter.
pub open spec fn take_at_most(s: Seq<char>, n: int) -> Seq<char> {
    if s.len() <= n {
        s
    } else {
        s.take(n)
    }
}

fn truncate_chars<'a>(s: &'a [char], n: usize) -> (r: &'a [char])
    ensures
        r@ == take_at_most(s@, n as int),
{
    if s.len() <= n {
        s
    } else {
        slice_subrange(s, 0, n)
    }
}

/// The segment at position `i` of `text` split on `pat`, if the split has
/// that many segments.
pub open spec fn split_nth(text: Seq<char>, pat: Seq<char>, i: int) -> Option<Seq<char>> {
    if 0 <= i < split_seq(text, pat).len() {
        Some(split_seq(text, pat)[i])
    } else {
        None
    }
}

/// The untrimmed table cell after the first occurrence of `start_pat`: the
/// text that follows the next `open_pat`, cut at the `close_pat` after it.
pub open spec fn spec_cell(
    html: Seq<char>,
    start_pat: Seq<char>,
    open_pat: Seq<char>,
    close_pat: Seq<char>,
) -> Option<Seq<char>> {
    match split_nth(html, start_pat, 1) {
        None => None,
        Some(a) => match split_nth(a, open_pat, 1) {
            None => None,
            Some(b) => Some(split_seq(b, close_pat)[0]),
        },
    }
}

/// The trimmed cell value, or empty when the patterns do not occur.
pub open spec fn spec_field(
    html: Seq<char>,
    start_pat: Seq<char>,
    open_pat: Seq<char>,
    close_pat: Seq<char>,
) -> Seq<char> {
    match spec_cell(html, start_pat, open_pat, close_pat) {
        None => Seq::empty(),
        Some(cell) => trim_seq(cell),
    }
}

/// The value `extract_value` produces: the `<td>` cell after `start_pat`,
/// optionally cut at `clean`, trimmed; empty when the patterns do not occur.
pub open spec fn spec_extract_value(
    html: Seq<char>,
    start_pat: Seq<char>,
    clean: Option<Seq<char>>,
) -> Seq<char> {
    match spec_cell(html, start_pat, "<td>"@, "</td>"@) {
        None => Seq::empty(),
        Some(cell) => match clean {
            None => trim_seq(cell),
            Some(p) => trim_seq(split_seq(cell, p)[0]),
        },
    }
}

fn cell_slice<'a>(html: &'a [char], start: &[char], open: &[char], close: &[char]) -> (r: Option<
    &'a [char],
>)
    ensures
        match r {
            Some(s) => spec_cell(html@, start@, open@, close@) == Some(s@),
            None => spec_cell(html@, start@, open@, close@) is None,
        },
{
    let a = match split_and_get(html, start, 1) {
        Some(a) => a,
        None => {
            return None;
        },
    };
    let b = match split_and_get(a, open, 1) {
        Some(b) => b,
        None => {
            return None;
        },
    };
    match split_and_get(b, close, 0) {
        Some(c) => Some(c),
        None => {
            proof {
                lemma_split_seq_nonempty(b@, close@);
            }
            vstd::pervasive::unreached()
        },
    }
}

/// The trimmed cell between `open` and `close` after `start`, as a slice of
/// `html`; empty when the patterns do not occur.
pub fn field_slice<'a>(html: &'a [char], start: &[char], open: &[char], close: &[char]) -> (r:
    &'a [char])
    ensures
        r@ == spec_field(html@, start@, open@, close@),
{
    match cell_slice(html, start, open, close) {
        Some(c) => trim_slice(c),
        None => {
            let r = slice_subrange(html, 0, 0);
            proof {
                assert(r@ =~= Seq::<char>::empty());
            }
            r
        },
    }
}

/// The trimmed `<td>` cell value after the first occurrence of
/// `start_pattern`, cut at `clean_pattern` first when one is given; the empty
/// string when the patterns do not occur.
pub fn extract_value(html: &[char], start_pattern: &[char], clean_pattern: Option<&[char]>) -> (r:
    String)
    ensures
        r@ == spec_extract_value(
            html@,
            start_pattern@,
            match clean_pattern {
                Some(p) => Some(p@),
                None => None,
            },
        ),
{
    let td = str_chars("<td>");
    let tdc = str_chars("</td>");
    let cell = match cell_slice(html, start_pattern, td.as_slice(), tdc.as_slice()) {
        Some(c) => c,
        None => {
            return String::new();
        },
    };
    let picked = match clean_pattern {
        Some(p) => {
            match split_and_get(cell, p, 0) {
                Some(first) => first,
                None => {
                    proof {
                        lemma_split_seq_nonempty(cell@, p@);
                    }
                    vstd::pervasive::unreached()
                },
            }
        },
        None => cell,
    };
    chars_to_string(trim_slice(picked))
}

/// Extracts every structured field of one parcel record from a fetched page.
/// Each field is pinned to the extraction-spec composition the page layout
/// calls for; a field whose patterns do not occur comes out empty.
pub fn parse_parcel_data(html: &[char], parcel_code: &[char]) -> (r: ParcelData)
    ensures
        r.parcel_code@ == parcel_code@,
        r.denomination@ == take_at_most(
            spec_extract_value(html@, "<th>Denominação</th>"@, None),
            60,
        ),
        r.area@ == spec_extract_value(html@, "<th>Área</th>"@, Some("ha"@)),
        r.date_of_entry@ == spec_extract_value(html@, "<th>Data de Entrada</th>"@, None),
        r.situation_parcel@ == spec_field(html@, "<th>Situação</th>"@, "<td>"@, "<br />"@),
        r.technical_manager@ == spec_extract_value(
            html@,
            "<th>Responsável Técnico(a)</th>"@,
            None,
        ),
        r.rt_document@ == spec_extract_value(html@, "<th>Documento de RT</th>"@, Some(" - "@)),
        r.situation_area@ == (match split_nth(html@, r.situation_parcel@, 1) {
            Some(after) => spec_extract_value(after, "<th>Situação</th>"@, None),
            None => Seq::<char>::empty(),
        }),
        r.property_type@ == spec_extract_value(html@, "<th>Natureza</th>"@, None),
        r.code_incra@ == spec_extract_value(
            html@,
            "<th>Código do Imóvel (SNCR/INCRA)</th>"@,
            None,
        ),
        r.city_uf@ == spec_field(
            html@,
            "<th colspan=\"2\">Municípios</th>"@,
            "<td colspan=\"2\">"@,
            "</td>"@,
        ),
        r.owner_name@ == take_at_most(spec_field(html@, "<th>Nome</th>"@, "<td>"@, "</td>"@), 60),
        r.owner_cpf_or_cnpj@ == spec_field(html@, r.owner_name@, "<td>"@, "</td>"@),
        r.registry_office@ == spec_extract_value(html@, "<th>Cartório</th>"@, None),
        r.cns@ == spec_extract_value(html@, "<th>Código Nacional de Serventia (CNS)</th>"@, None),
        r.registration@ == spec_extract_value(html@, "Matrícula"@, None),
        r.registration_situation@ == (if contains_seq(
            spec_extract_value(html@, "Situação do Registro"@, None),
            "<br />"@,
        ) {
            "Confirmado"@
        } else {
            "Não confirmado"@
        }),
{
    let td = str_chars("<td>");
    let tdc = str_chars("</td>");
    let p_br = str_chars("<br />");

    let p_denom = str_chars("<th>Denominação</th>");
    let denom_full = field_slice(html, p_denom.as_slice(), td.as_slice(), tdc.as_slice());
    let denomination = chars_to_string(truncate_chars(denom_full, 60));

    let p_area = str_chars("<th>Área</th>");
    let p_ha = str_chars("ha");
    let area = extract_value(html, p_area.as_slice(), Some(p_ha.as_slice()));

    let p_date = str_chars("<th>Data de Entrada</th>");
    let date_of_entry = extract_value(html, p_date.as_slice(), None);

    let p_sit = str_chars("<th>Situação</th>");
    let sit_sl = field_slice(html, p_sit.as_slice(), td.as_slice(), p_br.as_slice());
    let situation_parcel = chars_to_string(sit_sl);

    let p_tec = str_chars("<th>Responsável Técnico(a)</th>");
    let technical_manager = extract_value(html, p_tec.as_slice(), None);

    let p_rt = str_chars("<th>Documento de RT</th>");
    let p_dash = str_chars(" - ");
    let rt_document = extract_value(html, p_rt.as_slice(), Some(p_dash.as_slice()));

    let situation_area = match split_and_get(html, sit_sl, 1) {
        Some(after) => extract_value(after, p_sit.as_slice(), None),
        None => String::new(),
    };

    let p_nat = str_chars("<th>Natureza</th>");
    let property_type = extract_value(html, p_nat.as_slice(), None);

    let p_incra = str_chars("<th>Código do Imóvel (SNCR/INCRA)</th>");
    let code_incra = extract_value(html, p_incra.as_slice(), None);

    let p_mun = str_chars("<th colspan=\"2\">Municípios</th>");
    let p_td2 = str_chars("<td colspan=\"2\">");
    let city_uf_sl = field_slice(html, p_mun.as_slice(), p_td2.as_slice(), tdc.as_slice());
    let city_uf = chars_to_string(city_uf_sl);

    let p_nome = str_chars("<th>Nome</th>");
    let owner_full = field_slice(html, p_nome.as_slice(), td.as_slice(), tdc.as_slice());
    let owner_sl = truncate_chars(owner_full, 60);
    let owner_name = chars_to_string(owner_sl);

    let cpf_sl = field_slice(html, owner_sl, td.as_slice(), tdc.as_slice());
    let owner_cpf_or_cnpj = chars_to_string(cpf_sl);

    let p_cart = str_chars("<th>Cartório</th>");
    let registry_office = extract_value(html, p_cart.as_slice(), None);

    let p_cns = str_chars("<th>Código Nacional de Serventia (CNS)</th>");
    let cns = extract_value(html, p_cns.as_slice(), None);

    let p_mat = str_chars("Matrícula");
    let registration = extract_value(html, p_mat.as_slice(), None);

    let p_sitreg = str_chars("Situação do Registro");
    let reg_val = field_slice(html, p_sitreg.as_slice(), td.as_slice(), tdc.as_slice());
    let registration_situation = if contains_chars(reg_val, p_br.as_slice()) {
        "Confirmado".to_owned()
    } else {
        "Não confirmado".to_owned()
    };

    ParcelData {
        parcel_code: chars_to_string(parcel_code),
        owner_name,
        owner_cpf_or_cnpj,
        denomination,
        area,
        situation_parcel,
        technical_manager,
        situation_area,
        city_uf,
        registry_office,
        cns,
        registration,
        registration_situation,
        code_incra,
        property_type,
        date_of_entry,
        rt_document,
    }
}

} // verus!
