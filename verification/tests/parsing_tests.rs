use consult_parcels::parsing::{contains_chars, extract_value, field_slice, parse_parcel_data, split_and_get};

fn chars(s: &str) -> Vec<char> {
    s.chars().collect()
}

fn string_of(cs: &[char]) -> String {
    cs.iter().collect()
}

#[test]
fn split_and_get_picks_the_nth_segment() {
    let text = chars("alpha,beta,gamma");
    let sep = chars(",");
    assert_eq!(string_of(split_and_get(&text, &sep, 0).unwrap()), "alpha");
    assert_eq!(string_of(split_and_get(&text, &sep, 1).unwrap()), "beta");
    assert_eq!(string_of(split_and_get(&text, &sep, 2).unwrap()), "gamma");
    assert!(split_and_get(&text, &sep, 3).is_none());
}

#[test]
fn split_and_get_without_occurrence_keeps_the_whole_text() {
    let text = chars("alpha");
    let sep = chars(";");
    assert_eq!(string_of(split_and_get(&text, &sep, 0).unwrap()), "alpha");
    assert!(split_and_get(&text, &sep, 1).is_none());
}

#[test]
fn split_and_get_empty_separator_splits_nothing() {
    let text = chars("abc");
    let sep: Vec<char> = Vec::new();
    assert_eq!(string_of(split_and_get(&text, &sep, 0).unwrap()), "abc");
    assert!(split_and_get(&text, &sep, 1).is_none());
}

#[test]
fn split_and_get_multi_character_separator() {
    let text = chars("one<br />two<br />three");
    let sep = chars("<br />");
    assert_eq!(string_of(split_and_get(&text, &sep, 1).unwrap()), "two");
}

#[test]
fn split_and_get_adjacent_separators_give_empty_segments() {
    let text = chars("a,,b");
    let sep = chars(",");
    assert_eq!(string_of(split_and_get(&text, &sep, 1).unwrap()), "");
}

#[test]
fn extract_value_reads_the_cell_after_the_header() {
    let html = chars("<th>Área</th><td>  12,5 ha  </td>");
    let start = chars("<th>Área</th>");
    assert_eq!(extract_value(&html, &start, None), "12,5 ha");
    let clean = chars("ha");
    assert_eq!(extract_value(&html, &start, Some(&clean)), "12,5");
}

#[test]
fn extract_value_missing_pattern_gives_empty() {
    let html = chars("<th>Nome</th><td>x</td>");
    let start = chars("<th>Área</th>");
    assert_eq!(extract_value(&html, &start, None), "");
}

#[test]
fn field_slice_trims_between_custom_patterns() {
    let html = chars("<th>Situação</th><td> Registrada <br />resto</td>");
    let start = chars("<th>Situação</th>");
    let open = chars("<td>");
    let close = chars("<br />");
    assert_eq!(string_of(field_slice(&html, &start, &open, &close)), "Registrada");
}

#[test]
fn contains_chars_finds_substrings() {
    let text = chars("Request Rejected by the gateway");
    assert!(contains_chars(&text, &chars("Request Rejected")));
    assert!(!contains_chars(&text, &chars("accepted")));
}

fn sample_page() -> String {
    let mut h = String::new();
    h.push_str("<table>");
    h.push_str("<th>Denominação</th><td> Fazenda Boa Vista </td>");
    h.push_str("<th>Área</th><td> 12,5 ha </td>");
    h.push_str("<th>Data de Entrada</th><td>01/02/2020</td>");
    h.push_str("<th>Situação</th><td>Registrada<br />mais</td>");
    h.push_str("<th>Responsável Técnico(a)</th><td>Maria Silva</td>");
    h.push_str("<th>Documento de RT</th><td>ART 123 - emitida</td>");
    h.push_str("<th>Situação</th><td>Georreferenciada</td>");
    h.push_str("<th>Natureza</th><td>Particular</td>");
    h.push_str("<th>Código do Imóvel (SNCR/INCRA)</th><td>950.000.123</td>");
    h.push_str("<th colspan=\"2\">Municípios</th><td colspan=\"2\">Altamira - PA</td>");
    h.push_str("<th>Nome</th><td>João da Silva</td><td>123.456.789-00</td>");
    h.push_str("<th>Cartório</th><td>2º Ofício</td>");
    h.push_str("<th>Código Nacional de Serventia (CNS)</th><td>06.543-2</td>");
    h.push_str("Matrícula<td>789</td>");
    h.push_str("Situação do Registro<td>OK<br /></td>");
    h.push_str("</table>");
    h
}

#[test]
fn parse_parcel_data_extracts_every_field() {
    let html = chars(&sample_page());
    let code = chars("abc-123");
    let r = parse_parcel_data(&html, &code);
    assert_eq!(r.parcel_code, "abc-123");
    assert_eq!(r.denomination, "Fazenda Boa Vista");
    assert_eq!(r.area, "12,5");
    assert_eq!(r.date_of_entry, "01/02/2020");
    assert_eq!(r.situation_parcel, "Registrada");
    assert_eq!(r.technical_manager, "Maria Silva");
    assert_eq!(r.rt_document, "ART 123");
    assert_eq!(r.situation_area, "Georreferenciada");
    assert_eq!(r.property_type, "Particular");
    assert_eq!(r.code_incra, "950.000.123");
    assert_eq!(r.city_uf, "Altamira - PA");
    assert_eq!(r.owner_name, "João da Silva");
    assert_eq!(r.owner_cpf_or_cnpj, "123.456.789-00");
    assert_eq!(r.registry_office, "2º Ofício");
    assert_eq!(r.cns, "06.543-2");
    assert_eq!(r.registration, "789");
    assert_eq!(r.registration_situation, "Confirmado");
}

#[test]
fn parse_parcel_data_on_empty_page_gives_empty_fields() {
    let html: Vec<char> = Vec::new();
    let code = chars("xyz");
    let r = parse_parcel_data(&html, &code);
    assert_eq!(r.parcel_code, "xyz");
    assert_eq!(r.denomination, "");
    assert_eq!(r.area, "");
    assert_eq!(r.situation_area, "");
    // no registry confirmation marker on an empty page
    assert_eq!(r.registration_situation, "Não confirmado");
}

#[test]
fn long_names_are_cut_at_sixty_characters() {
    let mut h = String::new();
    h.push_str("<th>Nome</th><td>");
    let long: String = (0..80).map(|_| 'x').collect();
    h.push_str(&long);
    h.push_str("</td>");
    let html = chars(&h);
    let code = chars("c");
    let r = parse_parcel_data(&html, &code);
    assert_eq!(r.owner_name.len(), 60);
    assert!(r.owner_name.chars().all(|c| c == 'x'));
}
