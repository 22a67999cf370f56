//! Languages by their codes.
use crate::text;
use vstd::prelude::*;

verus! {

/// The three-letter code (ISO 639-2/T) of a two-letter code (ISO 639-1), for the
/// languages that are common in Project Gutenberg. Other codes stay as they are.
pub open spec fn three_letters(code: Seq<char>) -> Seq<char> {
    if code == "en"@ {
        "eng"@
    } else if code == "fr"@ {
        "fra"@
    } else if code == "de"@ {
        "deu"@
    } else if code == "es"@ {
        "spa"@
    } else if code == "it"@ {
        "ita"@
    } else if code == "pt"@ {
        "por"@
    } else if code == "nl"@ {
        "nld"@
    } else if code == "la"@ {
        "lat"@
    } else if code == "el"@ {
        "ell"@
    } else if code == "ru"@ {
        "rus"@
    } else if code == "fi"@ {
        "fin"@
    } else if code == "sv"@ {
        "swe"@
    } else if code == "da"@ {
        "dan"@
    } else if code == "no"@ {
        "nor"@
    } else if code == "pl"@ {
        "pol"@
    } else if code == "cs"@ {
        "ces"@
    } else if code == "hu"@ {
        "hun"@
    } else if code == "ja"@ {
        "jpn"@
    } else if code == "zh"@ {
        "zho"@
    } else if code == "ar"@ {
        "ara"@
    } else if code == "ko"@ {
        "kor"@
    } else if code == "tr"@ {
        "tur"@
    } else if code == "ro"@ {
        "ron"@
    } else if code == "ca"@ {
        "cat"@
    } else if code == "is"@ {
        "isl"@
    } else {
        code
    }
}

/// The three-letter code of a two-letter code. Other codes stay as they are.
pub fn iso639_1_to_2<'a>(code: &'a str) -> (r: &'a str)
    ensures
        r@ == three_letters(code@),
{
    if text::same(code, "en") {
        "eng"
    } else if text::same(code, "fr") {
        "fra"
    } else if text::same(code, "de") {
        "deu"
    } else if text::same(code, "es") {
        "spa"
    } else if text::same(code, "it") {
        "ita"
    } else if text::same(code, "pt") {
        "por"
    } else if text::same(code, "nl") {
        "nld"
    } else if text::same(code, "la") {
        "lat"
    } else if text::same(code, "el") {
        "ell"
    } else if text::same(code, "ru") {
        "rus"
    } else if text::same(code, "fi") {
        "fin"
    } else if text::same(code, "sv") {
        "swe"
    } else if text::same(code, "da") {
        "dan"
    } else if text::same(code, "no") {
        "nor"
    } else if text::same(code, "pl") {
        "pol"
    } else if text::same(code, "cs") {
        "ces"
    } else if text::same(code, "hu") {
        "hun"
    } else if text::same(code, "ja") {
        "jpn"
    } else if text::same(code, "zh") {
        "zho"
    } else if text::same(code, "ar") {
        "ara"
    } else if text::same(code, "ko") {
        "kor"
    } else if text::same(code, "tr") {
        "tur"
    } else if text::same(code, "ro") {
        "ron"
    } else if text::same(code, "ca") {
        "cat"
    } else if text::same(code, "is") {
        "isl"
    } else {
        code
    }
}

/// The three-letter codes of `codes`.
pub open spec fn three_letter_codes(codes: Seq<Seq<char>>) -> Seq<Seq<char>> {
    codes.map_values(|c: Seq<char>| three_letters(c))
}

/// The three-letter codes of `codes`.
pub fn language_codes(codes: &Vec<String>) -> (r: Vec<String>)
    ensures
        text::texts(r@) == three_letter_codes(text::texts(codes@)),
{
    let mut out: Vec<String> = Vec::new();
    let mut i: usize = 0;
    while i < codes.len()
        invariant
            i <= codes@.len(),
            out@.len() == i,
            forall|k: int| 0 <= k < i ==> (#[trigger] out@[k])@ == three_letters(codes@[k]@),
        decreases codes@.len() - i,
    {
        out.push(iso639_1_to_2(codes[i].as_str()).to_owned());
        i += 1;
    }
    assert(text::texts(out@) =~= three_letter_codes(text::texts(codes@)));
    out
}

/// A code that was made three letters long stays as it is.
pub proof fn law_codes_are_stable(code: Seq<char>)
    ensures
        three_letters(three_letters(code)) == three_letters(code),
{
    reveal_strlit("en");
    reveal_strlit("eng");
    reveal_strlit("fr");
    reveal_strlit("fra");
    reveal_strlit("de");
    reveal_strlit("deu");
    reveal_strlit("es");
    reveal_strlit("spa");
    reveal_strlit("it");
    reveal_strlit("ita");
    reveal_strlit("pt");
    reveal_strlit("por");
    reveal_strlit("nl");
    reveal_strlit("nld");
    reveal_strlit("la");
    reveal_strlit("lat");
    reveal_strlit("el");
    reveal_strlit("ell");
    reveal_strlit("ru");
    reveal_strlit("rus");
    reveal_strlit("fi");
    reveal_strlit("fin");
    reveal_strlit("sv");
    reveal_strlit("swe");
    reveal_strlit("da");
    reveal_strlit("dan");
    reveal_strlit("no");
    reveal_strlit("nor");
    reveal_strlit("pl");
    reveal_strlit("pol");
    reveal_strlit("cs");
    reveal_strlit("ces");
    reveal_strlit("hu");
    reveal_strlit("hun");
    reveal_strlit("ja");
    reveal_strlit("jpn");
    reveal_strlit("zh");
    reveal_strlit("zho");
    reveal_strlit("ar");
    reveal_strlit("ara");
    reveal_strlit("ko");
    reveal_strlit("kor");
    reveal_strlit("tr");
    reveal_strlit("tur");
    reveal_strlit("ro");
    reveal_strlit("ron");
    reveal_strlit("ca");
    reveal_strlit("cat");
    reveal_strlit("is");
    reveal_strlit("isl");
}

/// The reveals that tell the two-letter codes apart.
proof fn lemma_reveal_codes()
    ensures
        "en"@.len() == 2 && "en"@[0] == 'e' && "en"@[1] == 'n',
        "fr"@.len() == 2 && "fr"@[0] == 'f' && "fr"@[1] == 'r',
        "de"@.len() == 2 && "de"@[0] == 'd' && "de"@[1] == 'e',
        "es"@.len() == 2 && "es"@[0] == 'e' && "es"@[1] == 's',
        "it"@.len() == 2 && "it"@[0] == 'i' && "it"@[1] == 't',
        "pt"@.len() == 2 && "pt"@[0] == 'p' && "pt"@[1] == 't',
        "nl"@.len() == 2 && "nl"@[0] == 'n' && "nl"@[1] == 'l',
        "la"@.len() == 2 && "la"@[0] == 'l' && "la"@[1] == 'a',
        "el"@.len() == 2 && "el"@[0] == 'e' && "el"@[1] == 'l',
        "ru"@.len() == 2 && "ru"@[0] == 'r' && "ru"@[1] == 'u',
        "fi"@.len() == 2 && "fi"@[0] == 'f' && "fi"@[1] == 'i',
        "sv"@.len() == 2 && "sv"@[0] == 's' && "sv"@[1] == 'v',
        "da"@.len() == 2 && "da"@[0] == 'd' && "da"@[1] == 'a',
        "no"@.len() == 2 && "no"@[0] == 'n' && "no"@[1] == 'o',
        "pl"@.len() == 2 && "pl"@[0] == 'p' && "pl"@[1] == 'l',
        "cs"@.len() == 2 && "cs"@[0] == 'c' && "cs"@[1] == 's',
        "hu"@.len() == 2 && "hu"@[0] == 'h' && "hu"@[1] == 'u',
        "ja"@.len() == 2 && "ja"@[0] == 'j' && "ja"@[1] == 'a',
        "zh"@.len() == 2 && "zh"@[0] == 'z' && "zh"@[1] == 'h',
        "ar"@.len() == 2 && "ar"@[0] == 'a' && "ar"@[1] == 'r',
        "ko"@.len() == 2 && "ko"@[0] == 'k' && "ko"@[1] == 'o',
        "tr"@.len() == 2 && "tr"@[0] == 't' && "tr"@[1] == 'r',
        "ro"@.len() == 2 && "ro"@[0] == 'r' && "ro"@[1] == 'o',
        "ca"@.len() == 2 && "ca"@[0] == 'c' && "ca"@[1] == 'a',
        "is"@.len() == 2 && "is"@[0] == 'i' && "is"@[1] == 's',
        "eng"@.len() == 3 && "eng"@[0] == 'e' && "eng"@[1] == 'n' && "eng"@[2] == 'g',
        "fra"@.len() == 3 && "fra"@[0] == 'f' && "fra"@[1] == 'r' && "fra"@[2] == 'a',
        "deu"@.len() == 3 && "deu"@[0] == 'd' && "deu"@[1] == 'e' && "deu"@[2] == 'u',
        "spa"@.len() == 3 && "spa"@[0] == 's' && "spa"@[1] == 'p' && "spa"@[2] == 'a',
        "ita"@.len() == 3 && "ita"@[0] == 'i' && "ita"@[1] == 't' && "ita"@[2] == 'a',
        "por"@.len() == 3 && "por"@[0] == 'p' && "por"@[1] == 'o' && "por"@[2] == 'r',
        "nld"@.len() == 3 && "nld"@[0] == 'n' && "nld"@[1] == 'l' && "nld"@[2] == 'd',
        "lat"@.len() == 3 && "lat"@[0] == 'l' && "lat"@[1] == 'a' && "lat"@[2] == 't',
        "ell"@.len() == 3 && "ell"@[0] == 'e' && "ell"@[1] == 'l' && "ell"@[2] == 'l',
        "rus"@.len() == 3 && "rus"@[0] == 'r' && "rus"@[1] == 'u' && "rus"@[2] == 's',
        "fin"@.len() == 3 && "fin"@[0] == 'f' && "fin"@[1] == 'i' && "fin"@[2] == 'n',
        "swe"@.len() == 3 && "swe"@[0] == 's' && "swe"@[1] == 'w' && "swe"@[2] == 'e',
        "dan"@.len() == 3 && "dan"@[0] == 'd' && "dan"@[1] == 'a' && "dan"@[2] == 'n',
        "nor"@.len() == 3 && "nor"@[0] == 'n' && "nor"@[1] == 'o' && "nor"@[2] == 'r',
        "pol"@.len() == 3 && "pol"@[0] == 'p' && "pol"@[1] == 'o' && "pol"@[2] == 'l',
        "ces"@.len() == 3 && "ces"@[0] == 'c' && "ces"@[1] == 'e' && "ces"@[2] == 's',
        "hun"@.len() == 3 && "hun"@[0] == 'h' && "hun"@[1] == 'u' && "hun"@[2] == 'n',
        "jpn"@.len() == 3 && "jpn"@[0] == 'j' && "jpn"@[1] == 'p' && "jpn"@[2] == 'n',
        "zho"@.len() == 3 && "zho"@[0] == 'z' && "zho"@[1] == 'h' && "zho"@[2] == 'o',
        "ara"@.len() == 3 && "ara"@[0] == 'a' && "ara"@[1] == 'r' && "ara"@[2] == 'a',
        "kor"@.len() == 3 && "kor"@[0] == 'k' && "kor"@[1] == 'o' && "kor"@[2] == 'r',
        "tur"@.len() == 3 && "tur"@[0] == 't' && "tur"@[1] == 'u' && "tur"@[2] == 'r',
        "ron"@.len() == 3 && "ron"@[0] == 'r' && "ron"@[1] == 'o' && "ron"@[2] == 'n',
        "cat"@.len() == 3 && "cat"@[0] == 'c' && "cat"@[1] == 'a' && "cat"@[2] == 't',
        "isl"@.len() == 3 && "isl"@[0] == 'i' && "isl"@[1] == 's' && "isl"@[2] == 'l',
{
    reveal_strlit("en");
    reveal_strlit("fr");
    reveal_strlit("de");
    reveal_strlit("es");
    reveal_strlit("it");
    reveal_strlit("pt");
    reveal_strlit("nl");
    reveal_strlit("la");
    reveal_strlit("el");
    reveal_strlit("ru");
    reveal_strlit("fi");
    reveal_strlit("sv");
    reveal_strlit("da");
    reveal_strlit("no");
    reveal_strlit("pl");
    reveal_strlit("cs");
    reveal_strlit("hu");
    reveal_strlit("ja");
    reveal_strlit("zh");
    reveal_strlit("ar");
    reveal_strlit("ko");
    reveal_strlit("tr");
    reveal_strlit("ro");
    reveal_strlit("ca");
    reveal_strlit("is");
    reveal_strlit("eng");
    reveal_strlit("fra");
    reveal_strlit("deu");
    reveal_strlit("spa");
    reveal_strlit("ita");
    reveal_strlit("por");
    reveal_strlit("nld");
    reveal_strlit("lat");
    reveal_strlit("ell");
    reveal_strlit("rus");
    reveal_strlit("fin");
    reveal_strlit("swe");
    reveal_strlit("dan");
    reveal_strlit("nor");
    reveal_strlit("pol");
    reveal_strlit("ces");
    reveal_strlit("hun");
    reveal_strlit("jpn");
    reveal_strlit("zho");
    reveal_strlit("ara");
    reveal_strlit("kor");
    reveal_strlit("tur");
    reveal_strlit("ron");
    reveal_strlit("cat");
    reveal_strlit("isl");
}

/// Each language of the table has its own three-letter code, and a code that is not in
/// the table stays as it is.
pub proof fn law_language_table(table: Seq<(Seq<char>, Seq<char>)>, code: Seq<char>, i: int)
    requires
        table == seq![
            ("en"@, "eng"@),
            ("fr"@, "fra"@),
            ("de"@, "deu"@),
            ("es"@, "spa"@),
            ("it"@, "ita"@),
            ("pt"@, "por"@),
            ("nl"@, "nld"@),
            ("la"@, "lat"@),
            ("el"@, "ell"@),
            ("ru"@, "rus"@),
            ("fi"@, "fin"@),
            ("sv"@, "swe"@),
            ("da"@, "dan"@),
            ("no"@, "nor"@),
            ("pl"@, "pol"@),
            ("cs"@, "ces"@),
            ("hu"@, "hun"@),
            ("ja"@, "jpn"@),
            ("zh"@, "zho"@),
            ("ar"@, "ara"@),
            ("ko"@, "kor"@),
            ("tr"@, "tur"@),
            ("ro"@, "ron"@),
            ("ca"@, "cat"@),
            ("is"@, "isl"@),
        ],
    ensures
        0 <= i < table.len() ==> three_letters(table[i].0) == table[i].1,
        (forall|k: int| 0 <= k < table.len() ==> (#[trigger] table[k]).0 != code)
            ==> three_letters(code) == code,
{
    lemma_reveal_codes();
    assert(table[0] == ("en"@, "eng"@));
    assert(table[1] == ("fr"@, "fra"@));
    assert(table[2] == ("de"@, "deu"@));
    assert(table[3] == ("es"@, "spa"@));
    assert(table[4] == ("it"@, "ita"@));
    assert(table[5] == ("pt"@, "por"@));
    assert(table[6] == ("nl"@, "nld"@));
    assert(table[7] == ("la"@, "lat"@));
    assert(table[8] == ("el"@, "ell"@));
    assert(table[9] == ("ru"@, "rus"@));
    assert(table[10] == ("fi"@, "fin"@));
    assert(table[11] == ("sv"@, "swe"@));
    assert(table[12] == ("da"@, "dan"@));
    assert(table[13] == ("no"@, "nor"@));
    assert(table[14] == ("pl"@, "pol"@));
    assert(table[15] == ("cs"@, "ces"@));
    assert(table[16] == ("hu"@, "hun"@));
    assert(table[17] == ("ja"@, "jpn"@));
    assert(table[18] == ("zh"@, "zho"@));
    assert(table[19] == ("ar"@, "ara"@));
    assert(table[20] == ("ko"@, "kor"@));
    assert(table[21] == ("tr"@, "tur"@));
    assert(table[22] == ("ro"@, "ron"@));
    assert(table[23] == ("ca"@, "cat"@));
    assert(table[24] == ("is"@, "isl"@));
}

/// Codes of two letters keep their languages apart, and a code that is changed becomes
/// one of three letters.
pub proof fn law_languages_stay_apart(a: Seq<char>, b: Seq<char>)
    ensures
        a.len() == b.len() && three_letters(a) == three_letters(b) ==> a == b,
        three_letters(a) != a ==> a.len() == 2 && three_letters(a).len() == 3,
{
    lemma_reveal_codes();
}

/// The languages of a list are made three letters long one by one and in order.
pub proof fn law_language_lists(codes: Seq<Seq<char>>, i: int)
    ensures
        three_letter_codes(codes).len() == codes.len(),
        0 <= i < codes.len() ==> three_letter_codes(codes)[i] == three_letters(codes[i]),
{
}

} // verus!
