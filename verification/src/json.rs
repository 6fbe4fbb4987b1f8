//! JSON values held as their compact text, and the calls into `serde_json`
//! that parse and print them.
use vstd::prelude::*;

verus! {

/// The compact JSON text that `serde_json` prints for the value that `text`
/// parses as, if it parses.
pub uninterp spec fn json_normal_form(text: Seq<char>) -> Option<Seq<char>>;

/// The entries of the JSON object that `text` parses as, each value printed
/// as compact JSON text, in key order; `None` when `text` is not a JSON
/// object.
pub uninterp spec fn json_object_entries(text: Seq<char>) -> Option<Seq<(Seq<char>, Seq<char>)>>;

/// The pretty-printed JSON object whose members are `entries` (each value
/// given as JSON text).
pub uninterp spec fn json_pretty_object(entries: Seq<(Seq<char>, Seq<char>)>) -> Seq<char>;

/// Text that is its own normal form: compact JSON as `serde_json` prints a
/// value.
pub open spec fn json_is_normal(t: Seq<char>) -> bool {
    json_normal_form(t) == Some(t)
}

/// Every value of the map is compact JSON text as `serde_json` prints it.
pub open spec fn values_normal(m: Map<Seq<char>, Seq<char>>) -> bool {
    forall|k: Seq<char>| m.contains_key(k) ==> json_is_normal(#[trigger] m[k])
}

/// Entries that print as an object and read back: no key twice, every
/// value compact JSON text.
pub open spec fn printable_entries(ev: Seq<(Seq<char>, Seq<char>)>) -> bool {
    crate::kv::keys_distinct(ev) && values_normal(crate::kv::map_of(ev))
}

/// `text` reads as an object with the keys and values of `ev`.
pub open spec fn reads_back(text: Seq<char>, ev: Seq<(Seq<char>, Seq<char>)>) -> bool {
    json_object_entries(text) matches Some(back) && crate::kv::map_of(back) == crate::kv::map_of(ev)
}

/// The deepest nesting of arrays and objects at or after position `i` of
/// JSON text `t` (strings skipped), `d` being the nesting at `i` and `m` the
/// deepest seen before it.
pub open spec fn nesting_from(t: Seq<char>, i: int, in_str: bool, esc: bool, d: int, m: int) -> int
    decreases t.len() - i,
{
    if i < 0 || i >= t.len() {
        m
    } else {
        let c = t[i];
        if in_str {
            if esc {
                nesting_from(t, i + 1, true, false, d, m)
            } else if c == '\\' {
                nesting_from(t, i + 1, true, true, d, m)
            } else if c == '"' {
                nesting_from(t, i + 1, false, false, d, m)
            } else {
                nesting_from(t, i + 1, true, false, d, m)
            }
        } else if c == '"' {
            nesting_from(t, i + 1, true, false, d, m)
        } else if c == '[' || c == '{' {
            nesting_from(t, i + 1, false, false, d + 1, if d + 1 > m { d + 1 } else { m })
        } else if c == ']' || c == '}' {
            nesting_from(t, i + 1, false, false, d - 1, m)
        } else {
            nesting_from(t, i + 1, false, false, d, m)
        }
    }
}

/// How deeply arrays and objects nest in JSON text `t`.
pub open spec fn json_nesting(t: Seq<char>) -> int {
    nesting_from(t, 0, false, false, 0, 0)
}

/// A value that still reads back as a member of an object: `serde_json`
/// refuses text nested 128 deep, and the object adds a level.
pub open spec fn shallow_value(t: Seq<char>) -> bool {
    json_nesting(t) <= 126
}

/// Every value of the entries reads back as a member of an object.
pub open spec fn shallow_entries(ev: Seq<(Seq<char>, Seq<char>)>) -> bool {
    forall|i: int| 0 <= i < ev.len() ==> shallow_value(#[trigger] ev[i].1)
}

/// Every value of the map reads back as a member of an object.
pub open spec fn shallow_values(m: Map<Seq<char>, Seq<char>>) -> bool {
    forall|k: Seq<char>| m.contains_key(k) ==> shallow_value(#[trigger] m[k])
}

/// Calls `serde_json::from_str::<Value>` and then `serde_json::to_string`;
/// the contract claims that the result is the normal form named
/// `json_normal_form` of the text, `None` exactly when the text is not JSON,
/// and that the printed text parses back to the same value, so that it is
/// its own normal form (numbers are read correctly rounded, as the
/// `float_roundtrip` feature makes `serde_json` do, and printed as the
/// shortest text that reads back as the same number).
#[verifier::external_body]
fn normalize_json(text: &str) -> (r: Option<String>)
    ensures
        match r {
            Some(t) => json_normal_form(text@) == Some(t@) && json_is_normal(t@),
            None => json_normal_form(text@) is None,
        },
{
    serde_json::from_str::<serde_json::Value>(text).ok().and_then(|v| serde_json::to_string(&v).ok())
}

/// Calls `serde_json::from_str::<serde_json::Map<String, Value>>` and prints
/// each member value with `Value`'s `Display` (compact JSON); the contract
/// claims that the result is `json_object_entries` of the text, that no key
/// occurs twice (the map is a `BTreeMap`, whose keys are unique), and that
/// each value text is its own normal form.
#[verifier::external_body]
pub(crate) fn parse_json_object(text: &str) -> (r: Option<Vec<(String, String)>>)
    ensures
        match r {
            Some(v) => json_object_entries(text@) == Some(crate::kv::entries_view(v@))
                && crate::kv::keys_distinct(crate::kv::entries_view(v@)) && forall|i: int|
                0 <= i < v@.len() ==> json_is_normal(#[trigger] v@[i].1@),
            None => json_object_entries(text@) is None,
        },
{
    serde_json::from_str::<serde_json::Map<String, serde_json::Value>>(text).ok().map(
        |m| m.into_iter().map(|(k, v)| (k, v.to_string())).collect(),
    )
}

/// Builds a `serde_json::Map` from the entries (a value text that does not
/// parse becomes `null`) and calls `serde_json::to_string_pretty`; the
/// contract claims that the result is `json_pretty_object` of the entries,
/// and that, when no key occurs twice, every value is compact JSON text and
/// no value nests so deep that the object would pass `serde_json`'s nesting
/// limit, the printed object reads back as the same keys with the same
/// values.
#[verifier::external_body]
pub(crate) fn pretty_json_object(entries: &Vec<(String, String)>) -> (r: String)
    ensures
        r@ == json_pretty_object(crate::kv::entries_view(entries@)),
        printable_entries(crate::kv::entries_view(entries@)) && shallow_entries(
            crate::kv::entries_view(entries@),
        ) ==> reads_back(r@, crate::kv::entries_view(entries@)),
{
    let m: serde_json::Map<String, serde_json::Value> = entries.iter().map(
        |(k, v)| (k.clone(), serde_json::from_str(v).unwrap_or(serde_json::Value::Null)),
    ).collect();
    serde_json::to_string_pretty(&m).unwrap_or_default()
}

/// A lower-case hexadecimal digit.
pub open spec fn hex_digit_char(n: int) -> char {
    if n < 10 {
        (48 + n) as char
    } else {
        (87 + n) as char
    }
}

/// How a character stands inside a JSON string as `serde_json` prints it:
/// `"` and `\\` behind a backslash, the control characters backspace, tab,
/// line feed, form feed and carriage return as `\\b`, `\\t`, `\\n`, `\\f`,
/// `\\r`, the other control characters as `\\u00` and two lower-case hex
/// digits, everything else as itself.
pub open spec fn escaped_char(c: char) -> Seq<char> {
    if c == '"' {
        seq!['\\', '"']
    } else if c == '\\' {
        seq!['\\', '\\']
    } else if c == '\x08' {
        seq!['\\', 'b']
    } else if c == '\t' {
        seq!['\\', 't']
    } else if c == '\n' {
        seq!['\\', 'n']
    } else if c == '\x0C' {
        seq!['\\', 'f']
    } else if c == '\r' {
        seq!['\\', 'r']
    } else if (c as int) < 0x20 {
        seq!['\\', 'u', '0', '0', hex_digit_char(c as int / 16), hex_digit_char(c as int % 16)]
    } else {
        seq![c]
    }
}

/// The characters of `s`, each escaped (see `escaped_char`).
pub open spec fn escaped_chars(s: Seq<char>) -> Seq<char>
    decreases s.len(),
{
    if s.len() == 0 {
        Seq::empty()
    } else {
        escaped_chars(s.drop_last()) + escaped_char(s.last())
    }
}

/// The JSON text of a string value holding `s`: `s` escaped, between
/// double quotes.
pub open spec fn json_quoted(s: Seq<char>) -> Seq<char> {
    seq!['"'] + escaped_chars(s) + seq!['"']
}

/// The text that JSON text `text` holds when it is a JSON string.
pub uninterp spec fn json_string_content(text: Seq<char>) -> Option<Seq<char>>;

/// Calls `serde_json::from_str::<Value>` and takes the text of a
/// `Value::String`; the contract claims that the result is
/// `json_string_content` of the text.
#[verifier::external_body]
fn string_content(text: &str) -> (r: Option<String>)
    ensures
        match r {
            Some(c) => json_string_content(text@) == Some(c@),
            None => json_string_content(text@) is None,
        },
{
    match serde_json::from_str::<serde_json::Value>(text) {
        Ok(serde_json::Value::String(c)) => Some(c),
        _ => None,
    }
}

/// Calls `Display` of `serde_json::Value::String` (compact JSON); the
/// contract claims that the result is `json_quoted` of the text, that it is
/// its own normal form, and that it reads back as a string holding the text
/// (the escapes printed are the ones the parser undoes).
#[verifier::external_body]
fn quote_json(s: &str) -> (r: String)
    ensures
        r@ == json_quoted(s@),
        json_is_normal(r@),
        json_string_content(r@) == Some(s@),
{
    serde_json::Value::String(s.to_owned()).to_string()
}

/// A JSON value, held as the compact text that `serde_json` prints for it.
#[derive(Debug, PartialEq, Eq)]
pub struct JsonValue {
    text: String,
}

impl Clone for JsonValue {
    fn clone(&self) -> (r: Self)
        ensures
            r.view() == self.view(),
    {
        proof {
            use_type_invariant(self);
        }
        JsonValue { text: self.text.clone() }
    }
}

impl JsonValue {
    #[verifier::type_invariant]
    spec fn normal(self) -> bool {
        json_is_normal(self.text@)
    }

    /// The compact JSON text of the value.
    pub closed spec fn view(&self) -> Seq<char> {
        self.text@
    }

    /// The value that JSON text `text` stands for, or `None` when it is not
    /// JSON.
    pub fn from_text(text: &str) -> (r: Option<JsonValue>)
        ensures
            match r {
                Some(v) => json_normal_form(text@) == Some(v.view()),
                None => json_normal_form(text@) is None,
            },
    {
        match normalize_json(text) {
            Some(t) => Some(JsonValue { text: t }),
            None => None,
        }
    }

    /// A value whose compact text is already known (as printed by
    /// `serde_json`).
    pub(crate) fn from_normal_text(text: String) -> (r: JsonValue)
        requires
            json_is_normal(text@),
        ensures
            r.view() == text@,
    {
        JsonValue { text }
    }

    /// The JSON string value holding `s`.
    pub fn string(s: &str) -> (r: JsonValue)
        ensures
            r.view() == json_quoted(s@),
            json_string_content(r.view()) == Some(s@),
    {
        JsonValue { text: quote_json(s) }
    }

    /// The text the value holds when it is a JSON string.
    pub fn as_string(&self) -> (r: Option<String>)
        ensures
            match r {
                Some(c) => json_string_content(self.view()) == Some(c@),
                None => json_string_content(self.view()) is None,
            },
    {
        string_content(self.text.as_str())
    }

    /// The compact JSON text of the value.
    pub fn as_text(&self) -> (r: &str)
        ensures
            r@ == self.view(),
    {
        self.text.as_str()
    }

    /// The compact JSON text of the value, owned.
    pub fn into_text(self) -> (r: String)
        ensures
            r@ == self.view(),
            json_is_normal(r@),
    {
        proof {
            use_type_invariant(&self);
        }
        self.text
    }

    /// The number of bytes of the compact JSON text.
    pub fn text_len(&self) -> (n: usize)
        ensures
            n == crate::kv::byte_len(self.view()),
    {
        self.text.as_str().len()
    }
}

/// The script that hands an event to the page's `__dz_dispatch_event`
/// handler, if one is defined: the event is written into the script as it
/// is, so text that is not JSON is refused (`None`), which keeps it from
/// ending the argument and running as code.
pub fn event_dispatch_script(event_json: &str) -> (r: Option<String>)
    ensures
        r is None <==> json_normal_form(event_json@) is None,
        r matches Some(s) ==> s@ == "if (typeof __dz_dispatch_event === 'function') __dz_dispatch_event("@
            + event_json@ + ");"@,
{
    match JsonValue::from_text(event_json) {
        None => None,
        Some(_) => {
            let mut s = "if (typeof __dz_dispatch_event === 'function') __dz_dispatch_event(".to_owned();
            s.append(event_json);
            s.append(");");
            Some(s)
        },
    }
}

/// The script that dispatches a `CustomEvent` named `name` on `window` with
/// `detail_json` as its detail: the name is written as a JSON string, the
/// detail as it is, so a detail that is not JSON is refused (`None`).
pub fn custom_event_script(name: &str, detail_json: &str) -> (r: Option<String>)
    ensures
        r is None <==> json_normal_form(detail_json@) is None,
        r matches Some(s) ==> s@ == "window.dispatchEvent(new CustomEvent("@ + json_quoted(name@)
            + ", { detail: "@ + detail_json@ + " }));"@,
{
    match JsonValue::from_text(detail_json) {
        None => None,
        Some(_) => {
            let quoted = JsonValue::string(name);
            let mut s = "window.dispatchEvent(new CustomEvent(".to_owned();
            s.append(quoted.as_text());
            s.append(", { detail: ");
            s.append(detail_json);
            s.append(" }));");
            Some(s)
        },
    }
}

} // verus!
