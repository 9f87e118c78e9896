use pogoda::locale::{chrono_locale, detect_from, lang_for_locale, units_for_locale, DateLocale};
use pogoda::types::Units;

#[test]
fn units_us_locale_is_imperial() {
    assert_eq!(units_for_locale("en-US"), Units::Imperial);
    assert_eq!(units_for_locale("en_US.UTF-8"), Units::Imperial);
}

#[test]
fn units_lr_locale_is_imperial() {
    assert_eq!(units_for_locale("en-LR"), Units::Imperial);
}

#[test]
fn units_myanmar_is_imperial() {
    assert_eq!(units_for_locale("my-MM"), Units::Imperial);
}

#[test]
fn units_gb_locale_is_british() {
    assert_eq!(units_for_locale("en-GB"), Units::British);
    assert_eq!(units_for_locale("en_GB.UTF-8"), Units::British);
}

#[test]
fn units_metric_fallback() {
    assert_eq!(units_for_locale("pl-PL"), Units::Metric);
    assert_eq!(units_for_locale("de-DE"), Units::Metric);
    assert_eq!(units_for_locale("fr-FR"), Units::Metric);
    assert_eq!(units_for_locale("ja-JP"), Units::Metric);
}

#[test]
fn units_exact_posix_names() {
    assert_eq!(units_for_locale("en_US"), Units::Imperial);
    assert_eq!(units_for_locale("en_GB"), Units::British);
    assert_eq!(units_for_locale("en_USX"), Units::Metric);
    assert_eq!(units_for_locale("en-us"), Units::Metric);
    assert_eq!(units_for_locale(""), Units::Metric);
}

#[test]
fn lang_polish() {
    assert_eq!(lang_for_locale("pl-PL"), "pl");
    assert_eq!(lang_for_locale("pl_PL.UTF-8"), "pl");
}

#[test]
fn lang_german() {
    assert_eq!(lang_for_locale("de-DE"), "de");
}

#[test]
fn lang_spanish_regions() {
    assert_eq!(lang_for_locale("es-ES"), "es-es");
    assert_eq!(lang_for_locale("es-es"), "es-es");
    assert_eq!(lang_for_locale("es_MX.UTF-8"), "es-419");
    assert_eq!(lang_for_locale("es-419"), "es-419");
    assert_eq!(lang_for_locale("es"), "es-419");
}

#[test]
fn lang_russian() {
    assert_eq!(lang_for_locale("ru-RU"), "ru");
}

#[test]
fn lang_ukrainian() {
    assert_eq!(lang_for_locale("uk-UA"), "uk");
}

#[test]
fn lang_french_regions() {
    assert_eq!(lang_for_locale("fr-FR"), "fr-fr");
    assert_eq!(lang_for_locale("fr-fr"), "fr-fr");
    assert_eq!(lang_for_locale("fr_FR.UTF-8"), "fr-fr");
    assert_eq!(lang_for_locale("fr-CA"), "fr-ca");
    assert_eq!(lang_for_locale("fr-ca"), "fr-ca");
    assert_eq!(lang_for_locale("fr-BE"), "fr-fr");
}

#[test]
fn lang_norwegian_bokmal() {
    assert_eq!(lang_for_locale("nb-NO"), "nb");
}

#[test]
fn lang_fallback_to_english() {
    assert_eq!(lang_for_locale("ja-JP"), "en");
    assert_eq!(lang_for_locale("en-US"), "en");
    assert_eq!(lang_for_locale("en-GB"), "en");
}

#[test]
fn lang_portuguese_regions() {
    assert_eq!(lang_for_locale("pt-BR"), "pt-br");
    assert_eq!(lang_for_locale("pt-br"), "pt-br");
    assert_eq!(lang_for_locale("pt_BR.UTF-8"), "pt-br");
    assert_eq!(lang_for_locale("pt-PT"), "pt-pt");
    assert_eq!(lang_for_locale("pt-pt"), "pt-pt");
    assert_eq!(lang_for_locale("pt-PT@euro"), "pt-pt");
    assert_eq!(lang_for_locale("pt"), "pt-br");
    assert_eq!(lang_for_locale("pt-AO"), "pt-pt");
}

#[test]
fn lang_subtag_case_and_separators() {
    assert_eq!(lang_for_locale("PL"), "pl");
    assert_eq!(lang_for_locale("--de__AT.."), "de");
    assert_eq!(lang_for_locale(""), "en");
    assert_eq!(lang_for_locale("-_."), "en");
    assert_eq!(lang_for_locale("PT_br"), "pt-br");
    assert_eq!(lang_for_locale("Es.Es"), "es-es");
    assert_eq!(lang_for_locale("sv_SE.UTF-8"), "sv");
}

#[test]
fn chrono_locale_mapping() {
    assert_eq!(chrono_locale("pl"), DateLocale::pl_PL);
    assert_eq!(chrono_locale("de"), DateLocale::de_DE);
    assert_eq!(chrono_locale("es-es"), DateLocale::es_ES);
    assert_eq!(chrono_locale("es-419"), DateLocale::es_MX);
    assert_eq!(chrono_locale("ru"), DateLocale::ru_RU);
    assert_eq!(chrono_locale("uk"), DateLocale::uk_UA);
    assert_eq!(chrono_locale("fr-fr"), DateLocale::fr_FR);
    assert_eq!(chrono_locale("fr-ca"), DateLocale::fr_CA);
    assert_eq!(chrono_locale("pt-br"), DateLocale::pt_BR);
    assert_eq!(chrono_locale("pt-pt"), DateLocale::pt_PT);
    assert_eq!(chrono_locale("nb"), DateLocale::nb_NO);
    assert_eq!(chrono_locale("en"), DateLocale::en_US);
}

#[test]
fn chrono_locale_unknown_is_us_english() {
    assert_eq!(chrono_locale("xx"), DateLocale::en_US);
    assert_eq!(chrono_locale("PL"), DateLocale::en_US);
}

#[test]
fn detect_from_tag() {
    assert_eq!(detect_from(None), (None, None));
    assert_eq!(detect_from(Some("en_US.UTF-8")), (Some(Units::Imperial), Some("en")));
    assert_eq!(detect_from(Some("pl-PL")), (Some(Units::Metric), Some("pl")));
}
