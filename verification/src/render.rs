//! Profiles as plain text: dotenv, JSON and YAML.

use std::collections::BTreeMap;

use vstd::prelude::*;
use vstd::utf8::{decode_utf8, encode_utf8, valid_utf8};

use crate::error::success;
use crate::error::{Error, ErrorModel, Fault};
use crate::name_map::NameMap;
use crate::name_map::{contents, in_order};
use crate::secret::push_bytes;
use crate::text::{
    ascii_alphanumeric, ascii_digit, ascii_upper, control, lemma_parted_at, parted, text_before,
    uppercased,
};
use crate::text::utf8_error_words;
use crate::text::{characters, is_control, same_text, text_from_utf8};
use crate::vault::VaultSecret;

verus! {

broadcast use vstd::string::group_string_axioms;

/// The texts of a map by their names.
pub open spec fn text_values(entries: Seq<(Seq<char>, String)>) -> Map<Seq<char>, Seq<char>> {
    contents(entries).map_values(|value: String| value@)
}

/// The values of secrets as texts, by their names; an error for the first that is no text.
pub open spec fn secret_texts(secrets: Seq<VaultSecret>) -> Result<
    Map<Seq<char>, Seq<char>>,
    ErrorModel,
>
    decreases secrets.len(),
{
    if secrets.len() == 0 {
        Ok(Map::empty())
    } else {
        match secret_texts(secrets.drop_last()) {
            Err(fault) => Err(fault),
            Ok(so_far) => {
                let name = secrets.last().name@;
                let value = secrets.last().value@;
                if valid_utf8(value) {
                    Ok(so_far.insert(name, decode_utf8(value)))
                } else {
                    Err(Fault::SecretNotText { name, cause: utf8_error_words(value) })
                }
            },
        }
    }
}

proof fn lemma_secret_texts_refusal(secrets: Seq<VaultSecret>, count: int)
    requires
        0 <= count <= secrets.len(),
        secret_texts(secrets.take(count)) is Err,
    ensures
        secret_texts(secrets) == secret_texts(secrets.take(count)),
    decreases secrets.len(),
{
    if count == secrets.len() {
        assert(secrets.take(count) == secrets);
    } else {
        assert(secrets.drop_last().take(count) == secrets.take(count));
        lemma_secret_texts_refusal(secrets.drop_last(), count);
    }
}

/// The values of secrets as texts, by their names.
pub fn secret_text_map(secrets: &Vec<VaultSecret>) -> (r: Result<NameMap<String>, Error>)
    ensures
        match r {
            Ok(values) => secret_texts(secrets@) == success(text_values(values@)),
            Err(error) => secret_texts(secrets@) matches Err(fault) && fault == error@,
        },
        r is Ok <==> forall|i: int|
            0 <= i < secrets@.len() ==> valid_utf8((#[trigger] secrets@[i]).value@),
        r matches Ok(values) ==> {
            &&& forall|name: Seq<char>| #[trigger]
                contents(values@).dom().contains(name) <==> exists|i: int|
                    0 <= i < secrets@.len() && (#[trigger] secrets@[i]).name@ == name
            &&& forall|i: int|
                0 <= i < secrets@.len() && (forall|k: int|
                    i < k < secrets@.len() ==> (#[trigger] secrets@[k]).name@ != secrets@[i].name@)
                    ==> encode_utf8(contents(values@)[(#[trigger] secrets@[i]).name@]@)
                    == secrets@[i].value@
        },
{
    let mut values: NameMap<String> = NameMap::new();
    let mut index: usize = 0;
    assert(text_values(values@) =~= Map::empty());
    while index < secrets.len()
        invariant
            index <= secrets.len(),
            secret_texts(secrets@.take(index as int)) == success(text_values(values@)),
        decreases secrets.len() - index,
    {
        let ghost before = values@;
        let mut bytes: Vec<u8> = Vec::new();
        push_bytes(&mut bytes, secrets[index].value.expose());
        assert(bytes@ == secrets@[index as int].value@);
        assert(secrets@.take(index + 1).drop_last() == secrets@.take(index as int));
        match text_from_utf8(bytes) {
            Err(cause) => {
                let error = Fault::SecretNotText { name: secrets[index].name.clone(), cause };
                assert(!valid_utf8(secrets@[index as int].value@));
                proof {
                    lemma_secret_texts_refusal(secrets@, index + 1);
                }
                return Err(error);
            },
            Ok(text) => {
                let ghost said = text@;
                values.insert(secrets[index].name.clone(), text);
                assert(text_values(values@) =~= text_values(before).insert(
                    secrets@[index as int].name@,
                    said,
                ));
            },
        }
        index += 1;
    }
    assert(secrets@.take(index as int) == secrets@);
    proof {
        let made = text_values(values@);
        law_secret_values_become_texts(secrets@, 0, Seq::empty());
        assert forall|name: Seq<char>| #[trigger]
            contents(values@).dom().contains(name) <==> exists|i: int|
            0 <= i < secrets@.len() && (#[trigger] secrets@[i]).name@ == name by {
            law_secret_values_become_texts(secrets@, 0, name);
            assert(made.dom().contains(name) == contents(values@).dom().contains(name));
        }
        assert forall|i: int|
            0 <= i < secrets@.len() && (forall|k: int|
                i < k < secrets@.len() ==> (#[trigger] secrets@[k]).name@
                    != secrets@[i].name@) implies encode_utf8(
            contents(values@)[(#[trigger] secrets@[i]).name@]@,
        ) == secrets@[i].value@ by {
            law_secret_values_become_texts(secrets@, i, secrets@[i].name@);
            assert(made[secrets@[i].name@] == contents(values@)[secrets@[i].name@]@);
        }
    }
    Ok(values)
}

/// A name with its ASCII letters in upper case and an underscore for each run of characters that
/// are neither ASCII letters nor digits.
pub open spec fn collapsed(name: Seq<char>) -> Seq<char>
    decreases name.len(),
{
    if name.len() == 0 {
        Seq::empty()
    } else {
        let before = collapsed(name.drop_last());
        if ascii_alphanumeric(name.last()) {
            before.push(uppercased(name.last()))
        } else if before.len() > 0 && before.last() == '_' {
            before
        } else {
            before.push('_')
        }
    }
}

/// A text without the underscores at its end.
pub open spec fn trimmed(text: Seq<char>) -> Seq<char>
    decreases text.len(),
{
    if text.len() > 0 && text.last() == '_' {
        trimmed(text.drop_last())
    } else {
        text
    }
}

/// The variable that a secret becomes in a dotenv file.
pub open spec fn dotenv_variable(name: Seq<char>) -> Result<Seq<char>, ErrorModel> {
    let body = trimmed(collapsed(name));
    if body.len() == 0 {
        Err(Fault::DotenvNameImpossible { name })
    } else if ascii_digit(body[0]) {
        Ok(seq!['_'] + body)
    } else {
        Ok(body)
    }
}

/// The upper-case form of an ASCII letter; any other character itself.
fn to_uppercase(character: char) -> (r: char)
    ensures
        r == uppercased(character),
{
    match character {
        'a' => 'A',
        'b' => 'B',
        'c' => 'C',
        'd' => 'D',
        'e' => 'E',
        'f' => 'F',
        'g' => 'G',
        'h' => 'H',
        'i' => 'I',
        'j' => 'J',
        'k' => 'K',
        'l' => 'L',
        'm' => 'M',
        'n' => 'N',
        'o' => 'O',
        'p' => 'P',
        'q' => 'Q',
        'r' => 'R',
        's' => 'S',
        't' => 'T',
        'u' => 'U',
        'v' => 'V',
        'w' => 'W',
        'x' => 'X',
        'y' => 'Y',
        'z' => 'Z',
        other => other,
    }
}

/// The variable that a secret becomes in a dotenv file.
pub fn dotenv_name(name: &str) -> (r: Result<String, Error>)
    ensures
        match r {
            Ok(variable) => dotenv_variable(name@) == success(variable@),
            Err(error) => dotenv_variable(name@) matches Err(fault) && fault == error@,
        },
{
    let mut body: Vec<char> = Vec::new();
    let mut previous_underscore: bool = false;
    assert(name@.take(0) =~= Seq::<char>::empty());
    for character in it: name.chars()
        invariant
            it.seq() == name@,
            body@ == collapsed(name@.take(it.index())),
            previous_underscore == (body@.len() > 0 && body@.last() == '_'),
    {
        let ghost done = it.index();
        assert(name@.take(done + 1).drop_last() =~= name@.take(done));
        let letter: bool = ('0' <= character && character <= '9') || ('a' <= character && character
            <= 'z') || ('A' <= character && character <= 'Z');
        if letter {
            body.push(to_uppercase(character));
            previous_underscore = false;
        } else if !previous_underscore {
            body.push('_');
            previous_underscore = true;
        }
    }
    assert(name@.take(name@.len() as int) =~= name@);
    while body.len() > 0 && body[body.len() - 1] == '_'
        invariant
            trimmed(body@) == trimmed(collapsed(name@)),
        decreases body.len(),
    {
        let ghost before = body@;
        body.pop();
        assert(body@ =~= before.drop_last());
    }
    if body.len() == 0 {
        return Err(Fault::DotenvNameImpossible { name: name.to_owned() });
    }
    let mut variable: String = String::new();
    if '0' <= body[0] && body[0] <= '9' {
        variable.push('_');
    }
    let ghost prefix = variable@;
    let mut index: usize = 0;
    while index < body.len()
        invariant
            index <= body.len(),
            variable@ == prefix + body@.take(index as int),
        decreases body.len() - index,
    {
        variable.push(body[index]);
        index += 1;
        assert(body@.take(index as int) =~= body@.take(index - 1).push(body@[index - 1]));
    }
    assert(body@.take(index as int) =~= body@);
    assert(variable@ == prefix + body@);
    assert(prefix =~= if ascii_digit(body@[0]) {
        seq!['_']
    } else {
        Seq::empty()
    });
    assert(Seq::<char>::empty() + body@ =~= body@);
    Ok(variable)
}

/// How a character stands in a quoted dotenv value.
pub open spec fn escaped_character(character: char) -> Seq<char> {
    if character == '\n' {
        seq!['\\', 'n']
    } else if character == '\r' {
        seq!['\\', 'r']
    } else if character == '\t' {
        seq!['\\', 't']
    } else if character == '\\' {
        seq!['\\', '\\']
    } else if character == '"' {
        seq!['\\', '"']
    } else {
        seq![character]
    }
}

/// A control character that has no escape.
pub open spec fn unsupported(character: char) -> bool {
    control(character) && character != '\n' && character != '\r' && character != '\t'
}

/// A text as it stands in a quoted dotenv value.
pub open spec fn escaped(value: Seq<char>) -> Seq<char>
    decreases value.len(),
{
    if value.len() == 0 {
        Seq::empty()
    } else {
        escaped(value.drop_last()) + escaped_character(value.last())
    }
}

/// A text as it stands in a quoted dotenv value, if that can hold it.
pub open spec fn dotenv_value(value: Seq<char>) -> Result<Seq<char>, ErrorModel> {
    if exists|i: int| 0 <= i < value.len() && unsupported(#[trigger] value[i]) {
        Err(Fault::DotenvControl)
    } else {
        Ok(escaped(value))
    }
}

/// A text as it stands in a quoted dotenv value.
pub fn dotenv_escape(value: &str) -> (r: Result<String, Error>)
    ensures
        match r {
            Ok(text) => dotenv_value(value@) == success(text@),
            Err(error) => dotenv_value(value@) matches Err(fault) && fault == error@,
        },
{
    let characters = characters(value);
    let mut text: String = String::new();
    let mut index: usize = 0;
    assert(value@.take(0) =~= Seq::<char>::empty());
    while index < characters.len()
        invariant
            characters@ == value@,
            index <= value@.len(),
            text@ == escaped(value@.take(index as int)),
            forall|i: int| 0 <= i < index ==> !unsupported(#[trigger] value@[i]),
        decreases value@.len() - index,
    {
        let character: char = characters[index];
        let ghost before = text@;
        assert(value@.take(index + 1).drop_last() =~= value@.take(index as int));
        if character == '\n' {
            text.push('\\');
            text.push('n');
        } else if character == '\r' {
            text.push('\\');
            text.push('r');
        } else if character == '\t' {
            text.push('\\');
            text.push('t');
        } else if character == '\\' {
            text.push('\\');
            text.push('\\');
        } else if character == '"' {
            text.push('\\');
            text.push('"');
        } else if is_control(character) {
            assert(unsupported(value@[index as int]));
            return Err(Fault::DotenvControl);
        } else {
            text.push(character);
        }
        assert(text@ =~= before + escaped_character(character));
        index += 1;
    }
    assert(value@.take(index as int) =~= value@);
    Ok(text)
}

/// One line of a dotenv file.
pub open spec fn dotenv_line(variable: Seq<char>, value: Seq<char>) -> Seq<char> {
    variable + "=\""@ + value + "\"\n"@
}

/// The entries of a map of texts.
pub open spec fn text_entries(entries: Seq<(Seq<char>, String)>) -> Seq<(Seq<char>, Seq<char>)> {
    Seq::new(entries.len(), |i: int| (entries[i].0, entries[i].1@))
}

/// Whether some entry becomes this variable.
pub open spec fn variable_used(entries: Seq<(Seq<char>, Seq<char>)>, variable: Seq<char>) -> bool {
    exists|i: int|
        0 <= i < entries.len() && dotenv_variable((#[trigger] entries[i]).0) == success(variable)
}

/// The dotenv file of some entries, line by line; an error for the first entry that cannot stand in
/// it.
pub open spec fn dotenv_text(entries: Seq<(Seq<char>, Seq<char>)>) -> Result<
    Seq<char>,
    ErrorModel,
>
    decreases entries.len(),
{
    if entries.len() == 0 {
        Ok(Seq::empty())
    } else {
        let (name, value) = entries.last();
        match dotenv_text(entries.drop_last()) {
            Err(fault) => Err(fault),
            Ok(before) => match dotenv_variable(name) {
                Err(fault) => Err(fault),
                Ok(variable) => if variable_used(entries.drop_last(), variable) {
                    Err(Fault::DotenvNameReused { name })
                } else {
                    match dotenv_value(value) {
                        Err(fault) => Err(fault),
                        Ok(text) => Ok(before + dotenv_line(variable, text)),
                    }
                },
            },
        }
    }
}

proof fn lemma_dotenv_refusal(entries: Seq<(Seq<char>, Seq<char>)>, count: int)
    requires
        0 <= count <= entries.len(),
        dotenv_text(entries.take(count)) is Err,
    ensures
        dotenv_text(entries) == dotenv_text(entries.take(count)),
    decreases entries.len(),
{
    if count == entries.len() {
        assert(entries.take(count) == entries);
    } else {
        assert(entries.drop_last().take(count) == entries.take(count));
        lemma_dotenv_refusal(entries.drop_last(), count);
    }
}

/// Whether a text is in a list.
fn listed(list: &Vec<String>, text: &str) -> (r: bool)
    ensures
        r <==> exists|i: int| 0 <= i < list@.len() && (#[trigger] list@[i])@ == text@,
{
    let mut index: usize = 0;
    while index < list.len()
        invariant
            index <= list.len(),
            forall|i: int| 0 <= i < index ==> (#[trigger] list@[i])@ != text@,
        decreases list.len() - index,
    {
        if same_text(list[index].as_str(), text) {
            return true;
        }
        index += 1;
    }
    false
}

/// The dotenv file of a map of texts, in the order of the names.
pub fn render_dotenv(values: &NameMap<String>) -> (r: Result<String, Error>)
    ensures
        match r {
            Ok(text) => dotenv_text(text_entries(values@)) == success(text@),
            Err(error) => dotenv_text(text_entries(values@)) matches Err(fault) && fault == error@,
        },
{
    let ghost entries = text_entries(values@);
    let mut used: Vec<String> = Vec::new();
    let mut output: String = String::new();
    let mut index: usize = 0;
    assert(entries.take(0) =~= Seq::empty());
    while index < values.len()
        invariant
            entries == text_entries(values@),
            index <= entries.len(),
            used.len() == index,
            forall|i: int|
                0 <= i < index ==> dotenv_variable(entries[i].0) == success(
                    (#[trigger] used@[i])@,
                ),
            dotenv_text(entries.take(index as int)) == success(output@),
        decreases entries.len() - index,
    {
        let ghost some = entries.take(index + 1);
        proof {
            assert(some.drop_last() =~= entries.take(index as int));
            if dotenv_text(some) is Err {
                lemma_dotenv_refusal(entries, index + 1);
            }
        }
        let name = values.name_at(index);
        let variable = match dotenv_name(name) {
            Err(error) => {
                return Err(error);
            },
            Ok(variable) => variable,
        };
        let reused = listed(&used, variable.as_str());
        proof {
            let before = entries.take(index as int);
            if reused {
                let i = choose|i: int| 0 <= i < used@.len() && (#[trigger] used@[i])@ == variable@;
                assert(before[i] == entries[i]);
                assert(dotenv_variable(before[i].0) == success(variable@));
            }
            if variable_used(before, variable@) {
                let i = choose|i: int|
                    0 <= i < before.len() && dotenv_variable((#[trigger] before[i]).0) == success(
                        variable@,
                    );
                assert(before[i] == entries[i]);
                assert(used@[i]@ == variable@);
            }
        }
        if reused {
            return Err(Fault::DotenvNameReused { name: name.to_owned() });
        }
        let text = match dotenv_escape(values.value_at(index).as_str()) {
            Err(error) => {
                return Err(error);
            },
            Ok(text) => text,
        };
        let ghost before = output@;
        output.append(variable.as_str());
        output.append("=\"");
        output.append(text.as_str());
        output.append("\"\n");
        assert(output@ =~= before + dotenv_line(variable@, text@));
        used.push(variable);
        index += 1;
    }
    assert(entries.take(index as int) =~= entries);
    Ok(output)
}

/// The formats that a profile can be rendered in.
#[derive(Debug, Clone, Copy, PartialEq, Eq, Structural)]
pub enum RenderFormat {
    Dotenv,
    Json,
    Yaml,
}

/// The JSON object of some names and texts, or the words of the serializer's error.
pub uninterp spec fn json_text(entries: Seq<(Seq<char>, Seq<char>)>) -> Result<
    Seq<char>,
    Seq<char>,
>;

/// The YAML mapping of some names and texts, or the words of the serializer's error.
pub uninterp spec fn yaml_text(entries: Seq<(Seq<char>, Seq<char>)>) -> Result<
    Seq<char>,
    Seq<char>,
>;

/// The names and texts of a list.
pub open spec fn pairs(entries: Seq<(String, String)>) -> Seq<(Seq<char>, Seq<char>)> {
    Seq::new(entries.len(), |i: int| (entries[i].0@, entries[i].1@))
}

/// A result of a serializer.
pub open spec fn serialized(result: Result<String, String>) -> Result<Seq<char>, Seq<char>> {
    match result {
        Ok(text) => Ok(text@),
        Err(words) => Err(words@),
    }
}

/// `serde_json::to_string_pretty` of a map of texts, with its error as words. What the text looks
/// like is left to the serializer; it is the same for the same entries.
#[verifier::external_body]
fn json_pretty(entries: Vec<(String, String)>) -> (r: Result<String, String>)
    requires
        in_order(pairs(entries@)),
    ensures
        serialized(r) == json_text(pairs(entries@)),
{
    let map: BTreeMap<String, String> = entries.into_iter().collect();
    serde_json::to_string_pretty(&map).map_err(|error| error.to_string())
}

/// The highest number that the YAML serializer counts up to.
pub const YAML_LIMIT: u64 = 0x7fff_ffff;

/// The most columns that the YAML serializer writes for a character: one, or more where it may be
/// escaped.
pub open spec fn character_columns(character: char) -> nat {
    let code = character as u32;
    if character == '"' || character == '\'' || character == '\\' {
        2
    } else if code == 0 || 7 <= code <= 13 || code == 0x1b || code == 0x85 || code == 0x2028 || code
        == 0x2029 {
        2
    } else if code < 0x20 || 0x7f <= code < 0xa0 {
        4
    } else if code == 0xfeff || code == 0xfffe || code == 0xffff {
        6
    } else {
        1
    }
}

/// The most line breaks that the YAML serializer writes for a character.
pub open spec fn character_breaks(character: char) -> nat {
    if character == '\n' {
        1
    } else if character as u32 == 0x2028 || character as u32 == 0x2029 {
        2
    } else {
        0
    }
}

/// The most columns that the YAML serializer writes for a text.
pub open spec fn text_columns(text: Seq<char>) -> nat
    decreases text.len(),
{
    if text.len() == 0 {
        0
    } else {
        text_columns(text.drop_last()) + character_columns(text.last())
    }
}

/// The most line breaks that the YAML serializer writes for a text.
pub open spec fn text_breaks(text: Seq<char>) -> nat
    decreases text.len(),
{
    if text.len() == 0 {
        0
    } else {
        text_breaks(text.drop_last()) + character_breaks(text.last())
    }
}

/// Whether the YAML serializer can count the bytes of a name and of its text, and the columns of
/// the two with up to sixteen for what stands around them.
pub open spec fn entry_countable(name: Seq<char>, text: Seq<char>) -> bool {
    &&& encode_utf8(name).len() < YAML_LIMIT
    &&& encode_utf8(text).len() < YAML_LIMIT
    &&& text_columns(name) + text_columns(text) + 16 <= YAML_LIMIT
}

/// The most line breaks that the YAML serializer writes for some entries, with up to eight around
/// each name and text.
pub open spec fn mapping_breaks(entries: Seq<(Seq<char>, Seq<char>)>) -> nat
    decreases entries.len(),
{
    if entries.len() == 0 {
        0
    } else {
        mapping_breaks(entries.drop_last()) + text_breaks(entries.last().0) + text_breaks(
            entries.last().1,
        ) + 8
    }
}

/// Whether the YAML serializer can count the bytes, the columns and the lines of a mapping.
pub open spec fn yaml_countable(entries: Seq<(Seq<char>, Seq<char>)>) -> bool {
    &&& forall|i: int|
        0 <= i < entries.len() ==> entry_countable((#[trigger] entries[i]).0, entries[i].1)
    &&& mapping_breaks(entries) + 8 <= YAML_LIMIT
}

/// `serde_yaml::to_string` of a map of texts, with its error as words. What the text looks like is
/// left to the serializer; it is the same for the same entries. The serializer keeps the length of
/// a text with one byte more, the column and the line in 32 bits with a sign. It dies of a longer
/// text, and panics at a higher column or line where overflow is checked; what it is given must
/// stay below. It writes at most six columns for a character, and an entry begins a new line.
#[verifier::external_body]
fn yaml_block(entries: Vec<(String, String)>) -> (r: Result<String, String>)
    requires
        in_order(pairs(entries@)),
        yaml_countable(pairs(entries@)),
    ensures
        serialized(r) == yaml_text(pairs(entries@)),
{
    let map: BTreeMap<String, String> = entries.into_iter().collect();
    serde_yaml::to_string(&map).map_err(|error| error.to_string())
}

/// A file that a serializer made, with what stands after it.
pub open spec fn serialized_file(result: Result<Seq<char>, Seq<char>>, ending: Seq<char>) -> Result<
    Seq<char>,
    ErrorModel,
> {
    match result {
        Ok(text) => Ok(text + ending),
        Err(cause) => Err(Fault::RenderFailed { cause }),
    }
}

/// A file that a serializer made, with `ending` after it.
pub fn finish_serialized(result: Result<String, String>, ending: &str) -> (r: Result<
    String,
    Error,
>)
    ensures
        match r {
            Ok(text) => serialized_file(serialized(result), ending@) == success(text@),
            Err(error) => serialized_file(serialized(result), ending@) matches Err(fault) && fault
                == error@,
        },
        result matches Ok(made) ==> (r matches Ok(text) && text@ == made@ + ending@),
        result matches Err(words) ==> (r matches Err(error) && error@ == (ErrorModel::RenderFailed {
            cause: words@,
        })),
{
    match result {
        Ok(text) => {
            let mut file: String = text;
            file.append(ending);
            Ok(file)
        },
        Err(cause) => Err(Fault::RenderFailed { cause }),
    }
}

/// The file of some entries in a format: a dotenv file, a JSON object with a line ending after it,
/// or a YAML mapping.
pub open spec fn rendered(entries: Seq<(Seq<char>, Seq<char>)>, format: RenderFormat) -> Result<
    Seq<char>,
    ErrorModel,
> {
    match format {
        RenderFormat::Dotenv => dotenv_text(entries),
        RenderFormat::Json => serialized_file(json_text(entries), "\n"@),
        RenderFormat::Yaml => serialized_file(yaml_text(entries), ""@),
    }
}

/// The entries of a map as a list.
fn listed_entries(values: &NameMap<String>) -> (r: Vec<(String, String)>)
    ensures
        pairs(r@) == text_entries(values@),
        in_order(pairs(r@)),
{
    proof {
        use_type_invariant(values);
    }
    let mut out: Vec<(String, String)> = Vec::new();
    let mut index: usize = 0;
    while index < values.len()
        invariant
            index <= values@.len(),
            in_order(values@),
            out.len() == index,
            forall|i: int|
                0 <= i < index ==> (#[trigger] out@[i]).0@ == values@[i].0 && out@[i].1@
                    == values@[i].1@,
        decreases values@.len() - index,
    {
        out.push((values.name_at(index).to_owned(), values.value_at(index).clone()));
        index += 1;
    }
    proof {
        let made = pairs(out@);
        assert(made =~= text_entries(values@));
        assert forall|i: int, j: int| 0 <= i < j < made.len() implies text_before(
            (#[trigger] made[i]).0,
            (#[trigger] made[j]).0,
        ) by {
            assert(made[i].0 == values@[i].0 && made[j].0 == values@[j].0);
        }
    }
    out
}

/// A number, or the one after the limit where it is beyond.
spec fn capped(number: nat) -> nat {
    if number > YAML_LIMIT {
        (YAML_LIMIT + 1) as nat
    } else {
        number
    }
}

fn columns_of(character: char) -> (r: u64)
    ensures
        r == character_columns(character),
{
    let code: u32 = character as u32;
    if character == '"' || character == '\'' || character == '\\' {
        2
    } else if code == 0 || (7 <= code && code <= 13) || code == 0x1b || code == 0x85 || code
        == 0x2028 || code == 0x2029 {
        2
    } else if code < 0x20 || (0x7f <= code && code < 0xa0) {
        4
    } else if code == 0xfeff || code == 0xfffe || code == 0xffff {
        6
    } else {
        1
    }
}

fn breaks_of(character: char) -> (r: u64)
    ensures
        r == character_breaks(character),
{
    if character == '\n' {
        1
    } else if character as u32 == 0x2028 || character as u32 == 0x2029 {
        2
    } else {
        0
    }
}

/// The sum of a number and a few more, up to the one after the limit.
fn add_capped(number: u64, more: u64) -> (r: u64)
    requires
        number <= YAML_LIMIT + 1,
        more <= YAML_LIMIT + 1,
    ensures
        r == capped((number + more) as nat),
{
    if number + more > YAML_LIMIT {
        YAML_LIMIT + 1
    } else {
        number + more
    }
}

/// The columns and the line breaks of a text, each up to the one after the limit.
fn count_text(text: &str) -> (r: (u64, u64))
    ensures
        r.0 == capped(text_columns(text@)),
        r.1 == capped(text_breaks(text@)),
{
    let mut columns: u64 = 0;
    let mut breaks: u64 = 0;
    for character in it: text.chars()
        invariant
            it.seq() == text@,
            columns == capped(text_columns(it.seq().take(it.index() as int))),
            breaks == capped(text_breaks(it.seq().take(it.index() as int))),
    {
        proof {
            let after = it.seq().take(it.index() + 1);
            assert(after.drop_last() =~= it.seq().take(it.index() as int));
            assert(after.last() == character);
        }
        columns = add_capped(columns, columns_of(character));
        breaks = add_capped(breaks, breaks_of(character));
    }
    assert(text@.take(text@.len() as int) =~= text@);
    (columns, breaks)
}

/// Whether the YAML serializer can count the bytes, the columns and the lines of a map of texts.
pub fn fits_yaml(values: &NameMap<String>) -> (r: bool)
    ensures
        r == yaml_countable(text_entries(values@)),
{
    let ghost entries = text_entries(values@);
    let mut breaks: u64 = 0;
    let mut index: usize = 0;
    assert(entries.take(0) =~= Seq::empty());
    while index < values.len()
        invariant
            entries == text_entries(values@),
            index <= entries.len(),
            breaks == capped(mapping_breaks(entries.take(index as int))),
            forall|i: int|
                0 <= i < index ==> entry_countable((#[trigger] entries[i]).0, entries[i].1),
        decreases entries.len() - index,
    {
        proof {
            assert(entries.take(index + 1).drop_last() =~= entries.take(index as int));
            assert(entries.take(index + 1).last() == entries[index as int]);
        }
        let name = values.name_at(index);
        let text = values.value_at(index).as_str();
        assert(entries[index as int] == (name@, text@));
        let name_bytes: u64 = name.as_bytes().len() as u64;
        let text_bytes: u64 = text.as_bytes().len() as u64;
        let (name_columns, name_breaks) = count_text(name);
        let (columns, breaks_within) = count_text(text);
        if name_bytes >= YAML_LIMIT || text_bytes >= YAML_LIMIT || name_columns + columns + 16
            > YAML_LIMIT {
            return false;
        }
        breaks = add_capped(add_capped(add_capped(breaks, name_breaks), breaks_within), 8);
        index += 1;
    }
    assert(entries.take(index as int) =~= entries);
    breaks + 8 <= YAML_LIMIT
}

/// The file of a map of texts in a format. A mapping that the YAML serializer could not count is
/// not to be rendered with it.
pub fn render(values: &NameMap<String>, format: RenderFormat) -> (r: Result<String, Error>)
    requires
        format == RenderFormat::Yaml ==> yaml_countable(text_entries(values@)),
    ensures
        match r {
            Ok(text) => rendered(text_entries(values@), format) == success(text@),
            Err(error) => rendered(text_entries(values@), format) matches Err(fault) && fault
                == error@,
        },
{
    match format {
        RenderFormat::Dotenv => render_dotenv(values),
        RenderFormat::Json => finish_serialized(json_pretty(listed_entries(values)), "\n"),
        RenderFormat::Yaml => finish_serialized(yaml_block(listed_entries(values)), ""),
    }
}

/// A character of a dotenv variable.
pub open spec fn variable_character(character: char) -> bool {
    ascii_upper(character) || ascii_digit(character) || character == '_'
}

/// A text of upper-case letters, digits and underscores, without two underscores in a row.
pub open spec fn tidy(text: Seq<char>) -> bool {
    &&& forall|i: int| 0 <= i < text.len() ==> variable_character(#[trigger] text[i])
    &&& forall|i: int| 0 < i < text.len() && #[trigger] text[i] == '_' ==> text[i - 1] != '_'
}

proof fn lemma_uppercased(character: char)
    requires
        ascii_alphanumeric(character),
    ensures
        ascii_upper(uppercased(character)) || ascii_digit(uppercased(character)),
        uppercased(character) != '_',
{
}

proof fn lemma_collapsed_is_tidy(name: Seq<char>)
    ensures
        tidy(collapsed(name)),
        (exists|i: int| 0 <= i < name.len() && ascii_alphanumeric(#[trigger] name[i])) <==> (exists|
            i: int,
        |
            0 <= i < collapsed(name).len() && #[trigger] collapsed(name)[i] != '_'),
    decreases name.len(),
{
    if name.len() > 0 {
        let less = name.drop_last();
        let before = collapsed(less);
        let after = collapsed(name);
        lemma_collapsed_is_tidy(less);
        if ascii_alphanumeric(name.last()) {
            lemma_uppercased(name.last());
            assert(ascii_alphanumeric(name[name.len() - 1]));
            assert(after[after.len() - 1] != '_');
        } else {
            if exists|i: int| 0 <= i < name.len() && ascii_alphanumeric(#[trigger] name[i]) {
                let i = choose|i: int|
                    0 <= i < name.len() && ascii_alphanumeric(#[trigger] name[i]);
                assert(less[i] == name[i]);
                let k = choose|k: int| 0 <= k < before.len() && #[trigger] before[k] != '_';
                assert(after[k] != '_');
            }
            if exists|k: int| 0 <= k < after.len() && #[trigger] after[k] != '_' {
                let k = choose|k: int| 0 <= k < after.len() && #[trigger] after[k] != '_';
                assert(before[k] != '_');
                let i = choose|i: int|
                    0 <= i < less.len() && ascii_alphanumeric(#[trigger] less[i]);
                assert(name[i] == less[i]);
            }
        }
        assert forall|i: int| 0 < i < after.len() && #[trigger] after[i] == '_' implies after[i - 1]
            != '_' by {
            if i < before.len() {
                assert(before[i] == '_');
                assert(before[i - 1] != '_');
            }
        }
    }
}

proof fn lemma_tidy_is_fixed(text: Seq<char>)
    requires
        tidy(text),
    ensures
        collapsed(text) == text,
    decreases text.len(),
{
    if text.len() > 0 {
        let less = text.drop_last();
        assert(tidy(less)) by {
            assert forall|i: int| 0 <= i < less.len() implies variable_character(
                #[trigger] less[i],
            ) by {
                assert(less[i] == text[i]);
            }
            assert forall|i: int| 0 < i < less.len() && #[trigger] less[i] == '_' implies less[i
                - 1] != '_' by {
                assert(text[i] == '_');
            }
        }
        lemma_tidy_is_fixed(less);
        assert(variable_character(text[text.len() - 1]));
        assert(text =~= less.push(text.last()));
    }
}

proof fn lemma_trimmed(text: Seq<char>)
    ensures
        trimmed(text).len() <= text.len(),
        trimmed(text) == text.take(trimmed(text).len() as int),
        trimmed(text).len() > 0 ==> trimmed(text).last() != '_',
        trimmed(text).len() > 0 <==> exists|i: int|
            0 <= i < text.len() && #[trigger] text[i] != '_',
    decreases text.len(),
{
    if text.len() > 0 && text.last() == '_' {
        let less = text.drop_last();
        lemma_trimmed(less);
        assert(trimmed(text) =~= text.take(trimmed(text).len() as int));
        if exists|i: int| 0 <= i < text.len() && #[trigger] text[i] != '_' {
            let i = choose|i: int| 0 <= i < text.len() && #[trigger] text[i] != '_';
            assert(less[i] != '_');
        }
        if exists|i: int| 0 <= i < less.len() && #[trigger] less[i] != '_' {
            let i = choose|i: int| 0 <= i < less.len() && #[trigger] less[i] != '_';
            assert(text[i] != '_');
        }
    } else {
        assert(text.take(text.len() as int) =~= text);
        if text.len() > 0 {
            assert(text[text.len() - 1] != '_');
        }
    }
}

/// What a secret name becomes is a variable: not empty, of upper-case ASCII letters, digits and
/// underscores, with no digit at its beginning, no underscore at its end and no two in a row.
pub proof fn law_dotenv_names_are_variables(name: Seq<char>)
    ensures
        dotenv_variable(name) matches Ok(variable) ==> {
            &&& variable.len() > 0
            &&& tidy(variable)
            &&& !ascii_digit(variable[0])
            &&& variable.last() != '_'
        },
{
    lemma_collapsed_is_tidy(name);
    let whole = collapsed(name);
    let body = trimmed(whole);
    lemma_trimmed(whole);
    assert forall|i: int| 0 <= i < body.len() implies body[i] == whole[i] by {}
    if body.len() > 0 && ascii_digit(body[0]) {
        let variable = seq!['_'] + body;
        assert forall|i: int| 0 <= i < variable.len() implies variable_character(
            #[trigger] variable[i],
        ) by {
            if i > 0 {
                assert(variable[i] == whole[i - 1]);
            }
        }
        assert forall|i: int| 0 < i < variable.len() && #[trigger] variable[i]
            == '_' implies variable[i - 1] != '_' by {
            assert(variable[i] == whole[i - 1]);
            if i > 1 {
                assert(variable[i - 1] == whole[i - 2]);
            }
        }
    }
}

/// A secret name becomes a variable exactly if it holds an ASCII letter or digit.
pub proof fn law_dotenv_names_need_a_letter(name: Seq<char>)
    ensures
        dotenv_variable(name) is Ok <==> exists|i: int|
            0 <= i < name.len() && ascii_alphanumeric(#[trigger] name[i]),
{
    lemma_collapsed_is_tidy(name);
    lemma_trimmed(collapsed(name));
}

/// What is a variable already stays as it is.
pub proof fn law_dotenv_names_are_stable(name: Seq<char>)
    ensures
        dotenv_variable(name) matches Ok(variable) ==> dotenv_variable(variable) == success(
            variable,
        ),
{
    law_dotenv_names_are_variables(name);
    if let Ok(variable) = dotenv_variable(name) {
        lemma_tidy_is_fixed(variable);
    }
}

/// What an escaped character stands for.
pub open spec fn unescaped_character(character: char) -> Option<char> {
    if character == 'n' {
        Some('\n')
    } else if character == 'r' {
        Some('\r')
    } else if character == 't' {
        Some('\t')
    } else if character == '\\' || character == '"' {
        Some(character)
    } else {
        None
    }
}

/// Reads a quoted value up to the quotation mark that ends it, and what stands after that.
pub open spec fn read_quoted(text: Seq<char>) -> Option<(Seq<char>, Seq<char>)>
    decreases text.len(),
{
    if text.len() == 0 {
        None
    } else if text[0] == '"' {
        Some((Seq::empty(), text.drop_first()))
    } else if text[0] == '\\' {
        if text.len() < 2 {
            None
        } else {
            match (unescaped_character(text[1]), read_quoted(text.skip(2))) {
                (Some(character), Some((value, rest))) => Some((seq![character] + value, rest)),
                _ => None,
            }
        }
    } else {
        match read_quoted(text.drop_first()) {
            Some((value, rest)) => Some((seq![text[0]] + value, rest)),
            None => None,
        }
    }
}

proof fn lemma_escaped_from_front(value: Seq<char>)
    requires
        value.len() > 0,
    ensures
        escaped(value) == escaped_character(value[0]) + escaped(value.drop_first()),
    decreases value.len(),
{
    if value.len() == 1 {
        assert(value.drop_last() =~= Seq::<char>::empty());
        assert(value.drop_first() =~= Seq::<char>::empty());
        assert(escaped(value.drop_last()) =~= Seq::<char>::empty());
        assert(escaped(value.drop_first()) =~= Seq::<char>::empty());
        assert(escaped(value) =~= escaped_character(value[0]) + escaped(value.drop_first()));
    } else {
        let less = value.drop_last();
        lemma_escaped_from_front(less);
        assert(less.drop_first() =~= value.drop_first().drop_last());
        assert(escaped(value) =~= escaped_character(value[0]) + escaped(value.drop_first()));
    }
}

/// A value that was escaped and put in quotation marks is read back unchanged, whatever stands
/// after it: the escapes leave no doubt where it ends.
pub proof fn law_escaped_values_are_read_back(value: Seq<char>, rest: Seq<char>)
    ensures
        read_quoted(escaped(value) + seq!['"'] + rest) == Some((value, rest)),
    decreases value.len(),
{
    let text = escaped(value) + seq!['"'] + rest;
    if value.len() == 0 {
        assert(text =~= seq!['"'] + rest);
        assert(text.drop_first() =~= rest);
        assert(value =~= Seq::<char>::empty());
    } else {
        let tail = value.drop_first();
        law_escaped_values_are_read_back(tail, rest);
        lemma_escaped_from_front(value);
        let after = escaped(tail) + seq!['"'] + rest;
        assert(text =~= escaped_character(value[0]) + after);
        assert(seq![value[0]] + tail =~= value);
        if escaped_character(value[0]).len() == 2 {
            assert(text.skip(2) =~= after);
            assert(text[0] == '\\');
            assert(unescaped_character(text[1]) == Some(value[0]));
        } else {
            assert(text.drop_first() =~= after);
        }
    }
}

/// Reads one line of a dotenv file: its variable, its value and what stands after it.
pub open spec fn read_line(text: Seq<char>) -> Option<((Seq<char>, Seq<char>), Seq<char>)> {
    match parted(text, '=') {
        None => None,
        Some((variable, after)) => if after.len() == 0 || after[0] != '"' {
            None
        } else {
            match read_quoted(after.drop_first()) {
                None => None,
                Some((value, rest)) => if rest.len() == 0 || rest[0] != '\n' {
                    None
                } else {
                    Some(((variable, value), rest.drop_first()))
                },
            }
        },
    }
}

/// Reads so many lines of a dotenv file, and what stands after them.
pub open spec fn read_lines(text: Seq<char>, count: nat) -> Option<
    (Seq<(Seq<char>, Seq<char>)>, Seq<char>),
>
    decreases count,
{
    if count == 0 {
        Some((Seq::empty(), text))
    } else {
        match read_lines(text, (count - 1) as nat) {
            None => None,
            Some((before, rest)) => match read_line(rest) {
                None => None,
                Some((line, after)) => Some((before.push(line), after)),
            },
        }
    }
}

/// The variables and values of some entries.
pub open spec fn dotenv_entries(entries: Seq<(Seq<char>, Seq<char>)>) -> Seq<
    (Seq<char>, Seq<char>),
> {
    Seq::new(entries.len(), |i: int| (dotenv_variable(entries[i].0)->Ok_0, entries[i].1))
}

proof fn lemma_line_is_read_back(variable: Seq<char>, value: Seq<char>, rest: Seq<char>)
    requires
        !variable.contains('='),
    ensures
        read_line(dotenv_line(variable, escaped(value)) + rest) == Some(((variable, value), rest)),
{
    reveal_strlit("=\"");
    reveal_strlit("\"\n");
    let text = dotenv_line(variable, escaped(value)) + rest;
    let tail = seq!['\n'] + rest;
    let quoted = escaped(value) + seq!['"'] + tail;
    let after = seq!['"'] + quoted;
    assert("=\""@ =~= seq!['=', '"']);
    assert("\"\n"@ =~= seq!['"', '\n']);
    assert(text =~= variable + seq!['='] + after);
    lemma_parted_at(variable, '=', after);
    assert(after.drop_first() =~= quoted);
    law_escaped_values_are_read_back(value, tail);
    assert(tail.drop_first() =~= rest);
}

proof fn lemma_file_is_read_back(entries: Seq<(Seq<char>, Seq<char>)>, rest: Seq<char>)
    requires
        dotenv_text(entries) is Ok,
    ensures
        read_lines(dotenv_text(entries)->Ok_0 + rest, entries.len()) == Some(
            (dotenv_entries(entries), rest),
        ),
    decreases entries.len(),
{
    let text = dotenv_text(entries)->Ok_0;
    if entries.len() == 0 {
        assert(text + rest =~= rest);
        assert(dotenv_entries(entries) =~= Seq::empty());
    } else {
        let less = entries.drop_last();
        let (name, value) = entries.last();
        let variable = dotenv_variable(name)->Ok_0;
        let line = dotenv_line(variable, escaped(value));
        let before = dotenv_text(less)->Ok_0;
        lemma_file_is_read_back(less, line + rest);
        assert(text + rest =~= before + (line + rest));
        law_dotenv_names_are_variables(name);
        assert(!variable.contains('=')) by {
            if variable.contains('=') {
                let i = choose|i: int| 0 <= i < variable.len() && variable[i] == '=';
                assert(variable_character(variable[i]));
            }
        }
        lemma_line_is_read_back(variable, value, rest);
        assert(dotenv_entries(entries) =~= dotenv_entries(less).push((variable, value)));
    }
}

/// A dotenv file says exactly what was rendered: read line by line, it gives back the variable of
/// each secret and its value unchanged, in order, and nothing else.
pub proof fn law_dotenv_files_are_read_back(entries: Seq<(Seq<char>, Seq<char>)>)
    requires
        dotenv_text(entries) is Ok,
    ensures
        read_lines(dotenv_text(entries)->Ok_0, entries.len()) == Some(
            (dotenv_entries(entries), Seq::<char>::empty()),
        ),
{
    let text = dotenv_text(entries)->Ok_0;
    lemma_file_is_read_back(entries, Seq::empty());
    assert(text + Seq::<char>::empty() =~= text);
}

/// In a dotenv file no two secrets have become one variable.
pub proof fn law_dotenv_variables_are_distinct(
    entries: Seq<(Seq<char>, Seq<char>)>,
    i: int,
    j: int,
)
    requires
        dotenv_text(entries) is Ok,
        0 <= i < j < entries.len(),
    ensures
        dotenv_variable(entries[i].0) is Ok,
        dotenv_variable(entries[j].0) is Ok,
        dotenv_variable(entries[i].0) != dotenv_variable(entries[j].0),
    decreases entries.len(),
{
    let less = entries.drop_last();
    assert(less[i] == entries[i]);
    if j < less.len() {
        law_dotenv_variables_are_distinct(less, i, j);
    } else {
        let variable = dotenv_variable(entries[j].0)->Ok_0;
        assert(!variable_used(less, variable));
        if dotenv_variable(entries[i].0) == dotenv_variable(entries[j].0) {
            assert(dotenv_variable(less[i].0) == success(variable));
        }
        lemma_every_name_converts(less, i);
    }
}

proof fn lemma_every_name_converts(entries: Seq<(Seq<char>, Seq<char>)>, i: int)
    requires
        dotenv_text(entries) is Ok,
        0 <= i < entries.len(),
    ensures
        dotenv_variable(entries[i].0) is Ok,
    decreases entries.len(),
{
    if i < entries.len() - 1 {
        lemma_every_name_converts(entries.drop_last(), i);
    }
}

/// The values of secrets become texts exactly if all of them are valid UTF-8. Then there is a text
/// under the name of each secret and under no other, and its UTF-8 bytes are the value of the
/// secret, the whole of it; of two secrets under one name the last counts. Otherwise the first
/// value that is no text is refused, with the name of its secret.
pub proof fn law_secret_values_become_texts(
    secrets: Seq<VaultSecret>,
    index: int,
    name: Seq<char>,
)
    ensures
        secret_texts(secrets) is Ok <==> forall|i: int|
            0 <= i < secrets.len() ==> valid_utf8((#[trigger] secrets[i]).value@),
        secret_texts(secrets) matches Ok(made) ==> {
            &&& made.dom().contains(name) <==> exists|i: int|
                0 <= i < secrets.len() && (#[trigger] secrets[i]).name@ == name
            &&& 0 <= index < secrets.len() && (forall|k: int|
                index < k < secrets.len() ==> (#[trigger] secrets[k]).name@
                    != secrets[index].name@) ==> made.dom().contains(secrets[index].name@)
                && encode_utf8(made[secrets[index].name@]) == secrets[index].value@
        },
        0 <= index < secrets.len() && !valid_utf8(secrets[index].value@) && (forall|k: int|
            0 <= k < index ==> valid_utf8((#[trigger] secrets[k]).value@)) ==> secret_texts(secrets)
            == Err::<Map<Seq<char>, Seq<char>>, ErrorModel>(
            Fault::SecretNotText {
                name: secrets[index].name@,
                cause: utf8_error_words(secrets[index].value@),
            },
        ),
    decreases secrets.len(),
{
    if secrets.len() > 0 {
        let less = secrets.drop_last();
        let last = secrets.last();
        let end = secrets.len() - 1;
        law_secret_values_become_texts(less, index, name);
        assert(secrets[end] == last);
        assert forall|i: int| 0 <= i < less.len() implies less[i] == secrets[i] by {}
        if forall|i: int| 0 <= i < secrets.len() ==> valid_utf8((#[trigger] secrets[i]).value@) {
            assert forall|i: int| 0 <= i < less.len() implies valid_utf8(
                (#[trigger] less[i]).value@,
            ) by {
                assert(valid_utf8(secrets[i].value@));
            }
            assert(valid_utf8(secrets[end].value@));
        }
        if let Ok(made) = secret_texts(secrets) {
            vstd::utf8::decode_utf8_encode_utf8(last.value@);
            assert forall|i: int| 0 <= i < secrets.len() implies valid_utf8(
                (#[trigger] secrets[i]).value@,
            ) by {
                if i < end {
                    assert(valid_utf8(less[i].value@));
                }
            }
            if exists|i: int| 0 <= i < secrets.len() && (#[trigger] secrets[i]).name@ == name {
                let i = choose|i: int|
                    0 <= i < secrets.len() && (#[trigger] secrets[i]).name@ == name;
                if i < end {
                    assert(less[i].name@ == name);
                }
            }
            if exists|i: int| 0 <= i < less.len() && (#[trigger] less[i]).name@ == name {
                let i = choose|i: int| 0 <= i < less.len() && (#[trigger] less[i]).name@ == name;
                assert(secrets[i].name@ == name);
            }
            if 0 <= index < end && forall|k: int|
                index < k < secrets.len() ==> (#[trigger] secrets[k]).name@
                    != secrets[index].name@ {
                assert(secrets[end].name@ != secrets[index].name@);
                assert forall|k: int| index < k < less.len() implies (#[trigger] less[k]).name@
                    != less[index].name@ by {
                    assert(less[k] == secrets[k]);
                }
            }
        }
        if 0 <= index < secrets.len() && forall|k: int|
            0 <= k < index ==> valid_utf8((#[trigger] secrets[k]).value@) {
            assert forall|k: int| 0 <= k < index && k < less.len() implies valid_utf8(
                (#[trigger] less[k]).value@,
            ) by {
                assert(valid_utf8(secrets[k].value@));
            }
        }
    }
}

/// A text in which every ASCII letter is in upper case and everything else is as it was.
pub open spec fn in_upper_case(text: Seq<char>) -> Seq<char> {
    Seq::new(
        text.len(),
        |i: int|
            if 'a' <= text[i] <= 'z' {
                (text[i] as int - 'a' as int + 'A' as int) as char
            } else {
                text[i]
            },
    )
}

/// A text of ASCII letters and digits.
pub open spec fn is_word(text: Seq<char>) -> bool {
    text.len() > 0 && forall|i: int|
        0 <= i < text.len() ==> {
            let c = #[trigger] text[i];
            '0' <= c <= '9' || 'A' <= c <= 'Z' || 'a' <= c <= 'z'
        }
}

/// A text that holds no ASCII letter and no digit.
pub open spec fn is_gap(text: Seq<char>) -> bool {
    text.len() > 0 && forall|i: int|
        0 <= i < text.len() ==> {
            let c = #[trigger] text[i];
            !('0' <= c <= '9' || 'A' <= c <= 'Z' || 'a' <= c <= 'z')
        }
}

proof fn lemma_collapsed_word(before: Seq<char>, word: Seq<char>)
    requires
        is_word(word),
    ensures
        collapsed(before + word) == collapsed(before) + in_upper_case(word),
    decreases word.len(),
{
    let whole = before + word;
    let less = word.drop_last();
    assert(whole.drop_last() =~= before + less);
    assert(ascii_alphanumeric(word[word.len() - 1]));
    assert(uppercased(word.last()) == in_upper_case(word)[word.len() - 1]);
    if less.len() > 0 {
        assert forall|i: int| 0 <= i < less.len() implies ({
            let c = #[trigger] less[i];
            '0' <= c <= '9' || 'A' <= c <= 'Z' || 'a' <= c <= 'z'
        }) by {
            assert(less[i] == word[i]);
        }
        lemma_collapsed_word(before, less);
    } else {
        assert(before + less =~= before);
    }
    assert(in_upper_case(word) =~= in_upper_case(less).push(uppercased(word.last())));
    assert(collapsed(whole) =~= collapsed(before) + in_upper_case(word));
}

proof fn lemma_collapsed_gap(before: Seq<char>, gap: Seq<char>)
    requires
        is_gap(gap),
    ensures
        collapsed(before + gap) == if collapsed(before).len() > 0 && collapsed(before).last()
            == '_' {
            collapsed(before)
        } else {
            collapsed(before).push('_')
        },
    decreases gap.len(),
{
    let whole = before + gap;
    let less = gap.drop_last();
    assert(whole.drop_last() =~= before + less);
    assert(!ascii_alphanumeric(gap[gap.len() - 1]));
    if less.len() > 0 {
        assert forall|i: int| 0 <= i < less.len() implies ({
            let c = #[trigger] less[i];
            !('0' <= c <= '9' || 'A' <= c <= 'Z' || 'a' <= c <= 'z')
        }) by {
            assert(less[i] == gap[i]);
        }
        lemma_collapsed_gap(before, less);
    } else {
        assert(before + less =~= before);
    }
}

proof fn lemma_upper_case_of_word(word: Seq<char>)
    requires
        is_word(word),
    ensures
        in_upper_case(word).len() == word.len(),
        in_upper_case(word).last() != '_',
        ascii_digit(in_upper_case(word)[0]) == ('0' <= word[0] <= '9'),
        in_upper_case(word)[0] != '_',
{
    let c = word[0];
    assert('0' <= c <= '9' || 'A' <= c <= 'Z' || 'a' <= c <= 'z');
    let d = word[word.len() - 1];
    assert('0' <= d <= '9' || 'A' <= d <= 'Z' || 'a' <= d <= 'z');
}

/// A secret name of ASCII letters and digits becomes the variable of the same letters, in upper
/// case, and digits, with an underscore before it where it begins with a digit. Whatever else
/// stands before it becomes one underscore.
pub proof fn law_words_become_variables(gap: Seq<char>, word: Seq<char>)
    requires
        is_word(word),
        is_gap(gap),
    ensures
        dotenv_variable(word) == success(
            if '0' <= word[0] <= '9' {
                seq!['_'] + in_upper_case(word)
            } else {
                in_upper_case(word)
            },
        ),
        dotenv_variable(gap + word) == success(seq!['_'] + in_upper_case(word)),
{
    let none = Seq::<char>::empty();
    lemma_collapsed_word(none, word);
    assert(none + word =~= word);
    assert(collapsed(word) =~= in_upper_case(word));
    lemma_upper_case_of_word(word);
    lemma_collapsed_gap(none, gap);
    assert(none + gap =~= gap);
    assert(collapsed(gap) =~= seq!['_']);
    lemma_collapsed_word(gap, word);
    assert((seq!['_'] + in_upper_case(word)).last() == in_upper_case(word).last());
}

/// A secret name goes on as its variable does: a word after it is added in upper case, a word
/// after something else is added after one underscore, and what stands at its end and is neither
/// letter nor digit is left out.
pub proof fn law_variables_go_on_as_names_do(name: Seq<char>, gap: Seq<char>, word: Seq<char>)
    requires
        dotenv_variable(name) is Ok,
        name.len() > 0,
        is_gap(gap),
        is_word(word),
    ensures
        ({
            let variable = dotenv_variable(name)->Ok_0;
            let last = name.last();
            let ends_in_word = '0' <= last <= '9' || 'A' <= last <= 'Z' || 'a' <= last <= 'z';
            &&& ends_in_word ==> dotenv_variable(name + word) == success(
                variable + in_upper_case(word),
            )
            &&& ends_in_word ==> dotenv_variable(name + gap + word) == success(
                variable + seq!['_'] + in_upper_case(word),
            )
            &&& dotenv_variable(name + gap) == success(variable)
        }),
{
    let variable = dotenv_variable(name)->Ok_0;
    let whole = collapsed(name);
    let last = name.last();
    lemma_upper_case_of_word(word);
    lemma_collapsed_gap(name, gap);
    if '0' <= last <= '9' || 'A' <= last <= 'Z' || 'a' <= last <= 'z' {
        lemma_collapsed_is_tidy(name);
        assert(whole == collapsed(name.drop_last()).push(uppercased(last)));
        assert(whole.last() != '_');
        assert(trimmed(whole) == whole);
        lemma_collapsed_word(name, word);
        let longer = collapsed(name + word);
        assert(longer == whole + in_upper_case(word));
        assert(longer.last() == in_upper_case(word).last());
        assert(longer[0] == whole[0]);
        lemma_collapsed_word(name + gap, word);
        let parted = collapsed(name + gap + word);
        assert(parted =~= whole + seq!['_'] + in_upper_case(word));
        assert(parted.last() == in_upper_case(word).last());
        assert(parted[0] == whole[0]);
        if ascii_digit(whole[0]) {
            assert(seq!['_'] + longer =~= variable + in_upper_case(word));
            assert(seq!['_'] + parted =~= variable + seq!['_'] + in_upper_case(word));
        }
        assert(whole.push('_').drop_last() =~= whole);
        assert(trimmed(whole.push('_')) == trimmed(whole));
    } else {
        assert(whole.last() == '_');
    }
}

/// A character stands in a quoted dotenv value as itself, but for five: a line feed, a carriage
/// return, a tab, a backslash and a quotation mark stand as a backslash and `n`, `r`, `t`, a
/// backslash or a quotation mark. Any other control character cannot stand in one. A text stands in
/// it as its parts do, one after the other.
pub proof fn law_dotenv_values_are_escaped_by_character(
    character: char,
    left: Seq<char>,
    right: Seq<char>,
)
    ensures
        ({
            let one = dotenv_value(seq![character]);
            let code = character as int;
            &&& character == '\n' ==> one == success(seq!['\\', 'n'])
            &&& character == '\r' ==> one == success(seq!['\\', 'r'])
            &&& character == '\t' ==> one == success(seq!['\\', 't'])
            &&& character == '\\' ==> one == success(seq!['\\', '\\'])
            &&& character == '"' ==> one == success(seq!['\\', '"'])
            &&& (code < 32 || 127 <= code < 160) && code != 9 && code != 10 && code != 13 ==> one
                == Err::<Seq<char>, ErrorModel>(Fault::DotenvControl)
            &&& (32 <= code < 127 || 160 <= code) && character != '\\' && character != '"' ==> one
                == success(seq![character])
        }),
        dotenv_value(Seq::empty()) == success(Seq::<char>::empty()),
        dotenv_value(left) is Ok && dotenv_value(right) is Ok ==> dotenv_value(left + right)
            == success(dotenv_value(left)->Ok_0 + dotenv_value(right)->Ok_0),
        dotenv_value(left) is Err || dotenv_value(right) is Err ==> dotenv_value(left + right)
            == Err::<Seq<char>, ErrorModel>(Fault::DotenvControl),
{
    let single = seq![character];
    assert(single[0] == character);
    assert(single.drop_last() =~= Seq::<char>::empty());
    assert(escaped(single.drop_last()) =~= Seq::<char>::empty());
    assert(escaped(single) =~= escaped_character(character));
    let whole = left + right;
    if exists|i: int| 0 <= i < left.len() && unsupported(#[trigger] left[i]) {
        let i = choose|i: int| 0 <= i < left.len() && unsupported(#[trigger] left[i]);
        assert(unsupported(whole[i]));
    }
    if exists|i: int| 0 <= i < right.len() && unsupported(#[trigger] right[i]) {
        let i = choose|i: int| 0 <= i < right.len() && unsupported(#[trigger] right[i]);
        assert(whole[left.len() + i] == right[i]);
    }
    if dotenv_value(left) is Ok && dotenv_value(right) is Ok {
        assert forall|i: int| 0 <= i < whole.len() implies !unsupported(#[trigger] whole[i]) by {
            if i < left.len() {
                assert(whole[i] == left[i]);
            } else {
                assert(whole[i] == right[i - left.len()]);
            }
        }
        lemma_escaped_parts(left, right);
    }
}

proof fn lemma_escaped_parts(left: Seq<char>, right: Seq<char>)
    ensures
        escaped(left + right) == escaped(left) + escaped(right),
    decreases right.len(),
{
    let whole = left + right;
    if right.len() == 0 {
        assert(whole =~= left);
        assert(escaped(left) + escaped(right) =~= escaped(left));
    } else {
        assert(whole.drop_last() =~= left + right.drop_last());
        lemma_escaped_parts(left, right.drop_last());
        assert(escaped(whole) =~= escaped(left) + escaped(right));
    }
}

/// A dotenv file has a line for each entry, in order: the variable of its name, an equals sign, and
/// its value between quotation marks. It is refused for the first entry whose name becomes no
/// variable, becomes that of an entry before, or whose value cannot stand in one.
pub proof fn law_dotenv_files_have_a_line_for_each_entry(
    entries: Seq<(Seq<char>, Seq<char>)>,
    name: Seq<char>,
    value: Seq<char>,
)
    ensures
        dotenv_text(Seq::empty()) == success(Seq::<char>::empty()),
        ({
            let before = dotenv_text(entries);
            let after = dotenv_text(entries.push((name, value)));
            let variable = dotenv_variable(name);
            let taken = exists|i: int|
                0 <= i < entries.len() && dotenv_variable((#[trigger] entries[i]).0) == variable
                    && variable is Ok;
            let text = dotenv_value(value);
            &&& before is Err ==> after == before
            &&& before is Ok && variable is Ok && !taken && text is Ok ==> after == success(
                before->Ok_0 + variable->Ok_0 + seq!['=', '"'] + text->Ok_0 + seq!['"', '\n'],
            )
            &&& before is Ok && variable is Err ==> after == variable
            &&& before is Ok && taken ==> after == Err::<Seq<char>, ErrorModel>(
                Fault::DotenvNameReused { name },
            )
            &&& before is Ok && variable is Ok && !taken && text is Err ==> after == text
        }),
{
    reveal_strlit("=\"");
    reveal_strlit("\"\n");
    let more = entries.push((name, value));
    assert(more.drop_last() =~= entries);
    assert("=\""@ =~= seq!['=', '"']);
    assert("\"\n"@ =~= seq!['"', '\n']);
    let variable = dotenv_variable(name);
    let text = dotenv_value(value);
    if variable is Ok {
        let taken = exists|i: int|
            0 <= i < entries.len() && dotenv_variable((#[trigger] entries[i]).0) == variable
                && variable is Ok;
        if variable_used(entries, variable->Ok_0) {
            let i = choose|i: int|
                0 <= i < entries.len() && dotenv_variable((#[trigger] entries[i]).0) == success(
                    variable->Ok_0,
                );
            assert(dotenv_variable(entries[i].0) == variable);
        }
        if taken {
            let i = choose|i: int|
                0 <= i < entries.len() && dotenv_variable((#[trigger] entries[i]).0) == variable;
            assert(variable_used(entries, variable->Ok_0)) by {
                assert(dotenv_variable(entries[i].0) == success(variable->Ok_0));
            }
        }
        if dotenv_text(entries) is Ok && !taken && text is Ok {
            assert(dotenv_text(entries)->Ok_0 + dotenv_line(variable->Ok_0, text->Ok_0)
                =~= dotenv_text(entries)->Ok_0 + variable->Ok_0 + seq!['=', '"'] + text->Ok_0
                + seq!['"', '\n']);
        }
    }
}

/// A profile is rendered in the format that was asked for: as a dotenv file, as what the JSON
/// serializer gives with a line ending after it, or as what the YAML serializer gives.
pub proof fn law_profiles_are_rendered_in_their_format(entries: Seq<(Seq<char>, Seq<char>)>)
    ensures
        rendered(entries, RenderFormat::Dotenv) == dotenv_text(entries),
        json_text(entries) matches Ok(text) ==> rendered(entries, RenderFormat::Json) == success(
            text + seq!['\n'],
        ),
        json_text(entries) matches Err(cause) ==> rendered(entries, RenderFormat::Json) == Err::<
            Seq<char>,
            ErrorModel,
        >(Fault::RenderFailed { cause }),
        yaml_text(entries) matches Ok(text) ==> rendered(entries, RenderFormat::Yaml) == success(
            text,
        ),
        yaml_text(entries) matches Err(cause) ==> rendered(entries, RenderFormat::Yaml) == Err::<
            Seq<char>,
            ErrorModel,
        >(Fault::RenderFailed { cause }),
{
    reveal_strlit("\n");
    reveal_strlit("");
    assert("\n"@ =~= seq!['\n']);
    if let Ok(text) = yaml_text(entries) {
        assert(text + ""@ =~= text);
    }
}

/// The entries that are rendered are those of the map, each with its name and its text and in its
/// place.
pub proof fn law_entries_are_those_of_the_map(
    entries: Seq<(Seq<char>, String)>,
    listed: Seq<(String, String)>,
)
    ensures
        text_entries(entries).len() == entries.len(),
        forall|i: int|
            0 <= i < entries.len() ==> #[trigger] text_entries(entries)[i] == (
                entries[i].0,
                entries[i].1@,
            ),
        pairs(listed).len() == listed.len(),
        forall|i: int|
            0 <= i < listed.len() ==> #[trigger] pairs(listed)[i] == (listed[i].0@, listed[i].1@),
{
}

proof fn lemma_text_counts(text: Seq<char>)
    ensures
        text_columns(text) <= 6 * text.len(),
        text_breaks(text) <= 2 * text.len(),
    decreases text.len(),
{
    if text.len() > 0 {
        lemma_text_counts(text.drop_last());
    }
}

/// The YAML serializer can count every mapping whose names and texts together have fewer than
/// `limit` characters and bytes in each entry, where six columns for each of those fit in what it
/// counts up to, and so do two lines for each of them and eight for each entry.
pub proof fn law_mappings_of_moderate_size_can_be_counted(
    entries: Seq<(Seq<char>, Seq<char>)>,
    limit: nat,
)
    requires
        forall|i: int|
            0 <= i < entries.len() ==> {
                let (name, text) = #[trigger] entries[i];
                &&& name.len() + text.len() <= limit
                &&& encode_utf8(name).len() < 0x7fff_ffff
                &&& encode_utf8(text).len() < 0x7fff_ffff
            },
        6 * limit + 16 <= 0x7fff_ffff,
        entries.len() * (2 * limit + 8) + 8 <= 0x7fff_ffff,
    ensures
        yaml_countable(entries),
{
    assert forall|i: int| 0 <= i < entries.len() implies entry_countable(
        (#[trigger] entries[i]).0,
        entries[i].1,
    ) by {
        lemma_text_counts(entries[i].0);
        lemma_text_counts(entries[i].1);
    }
    lemma_mapping_counts(entries, limit);
}

proof fn lemma_mapping_counts(entries: Seq<(Seq<char>, Seq<char>)>, limit: nat)
    requires
        forall|i: int|
            0 <= i < entries.len() ==> (#[trigger] entries[i]).0.len() + entries[i].1.len()
                <= limit,
    ensures
        mapping_breaks(entries) <= entries.len() * (2 * limit + 8),
    decreases entries.len(),
{
    if entries.len() > 0 {
        let less = entries.drop_last();
        assert forall|i: int| 0 <= i < less.len() implies (#[trigger] less[i]).0.len()
            + less[i].1.len() <= limit by {
            assert(less[i] == entries[i]);
        }
        lemma_mapping_counts(less, limit);
        assert(entries[entries.len() - 1] == entries.last());
        lemma_text_counts(entries.last().0);
        lemma_text_counts(entries.last().1);
        assert(entries.len() * (2 * limit + 8) == less.len() * (2 * limit + 8) + (2 * limit + 8))
            by (nonlinear_arith)
            requires
                entries.len() == less.len() + 1,
        ;
    }
}

proof fn lemma_text_takes_columns(text: Seq<char>)
    ensures
        text_columns(text) >= text.len(),
    decreases text.len(),
{
    if text.len() > 0 {
        lemma_text_takes_columns(text.drop_last());
    }
}

/// In a mapping that the YAML serializer can count, the length of each name and of each text in
/// bytes, and that of both together in characters, stay below 2147483647.
pub proof fn law_counted_mappings_are_bounded(entries: Seq<(Seq<char>, Seq<char>)>, i: int)
    requires
        yaml_countable(entries),
        0 <= i < entries.len(),
    ensures
        encode_utf8(entries[i].0).len() < 0x7fff_ffff,
        encode_utf8(entries[i].1).len() < 0x7fff_ffff,
        entries[i].0.len() + entries[i].1.len() + 16 <= 0x7fff_ffff,
{
    assert(entry_countable(entries[i].0, entries[i].1));
    lemma_text_takes_columns(entries[i].0);
    lemma_text_takes_columns(entries[i].1);
}

/// A secret name that becomes no variable is refused with that name.
pub proof fn law_impossible_names_are_named(name: Seq<char>)
    ensures
        dotenv_variable(name) matches Err(fault) ==> fault == (ErrorModel::DotenvNameImpossible {
            name,
        }),
{
}

} // verus!
