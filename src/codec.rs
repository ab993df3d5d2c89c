//! The persisted document: one JSON object whose members are the stored keys,
//! each holding `{"value": <JSON value>, "expires_at": <seconds or null>}`.

use vstd::prelude::*;
use vstd::string::*;
use crate::entry::Entry;
use crate::error::TinyKVError;
use crate::json::{
    first_token, has_record, json_null, parsed_value, json_quoted, json_u64, parse_records, quote, value_json, value_text,
};
use crate::table::{has_key, table_map, unique_keys};
use crate::namespace::starts_with;
use crate::table::EntryTable;

verus! {

/// The decimal digit `d` (0 to 9).
pub open spec fn digit_char(d: int) -> char {
    if d == 0 {
        '0'
    } else if d == 1 {
        '1'
    } else if d == 2 {
        '2'
    } else if d == 3 {
        '3'
    } else if d == 4 {
        '4'
    } else if d == 5 {
        '5'
    } else if d == 6 {
        '6'
    } else if d == 7 {
        '7'
    } else if d == 8 {
        '8'
    } else {
        '9'
    }
}

/// The decimal numeral of `n`, without leading zeros.
pub open spec fn decimal(n: nat) -> Seq<char>
    decreases n,
{
    if n < 10 {
        seq![digit_char(n as int)]
    } else {
        decimal(n / 10).push(digit_char((n % 10) as int))
    }
}

/// Unicode White_Space, which `char::is_whitespace` tests.
pub open spec fn is_space(c: char) -> bool {
    ('\t' <= c && c <= '\r') || c == ' ' || c == '\u{85}' || c == '\u{a0}' || c == '\u{1680}'
        || ('\u{2000}' <= c && c <= '\u{200a}') || c == '\u{2028}' || c == '\u{2029}'
        || c == '\u{202f}' || c == '\u{205f}' || c == '\u{3000}'
}

/// Nothing but white space.
pub open spec fn blank(s: Seq<char>) -> bool {
    forall|i: int| 0 <= i < s.len() ==> is_space(#[trigger] s[i])
}

/// The text `{"value":`.
pub open spec fn value_opening() -> Seq<char> {
    seq!['{', '"', 'v', 'a', 'l', 'u', 'e', '"', ':']
}

/// The text `,"expires_at":`.
pub open spec fn expiry_opening() -> Seq<char> {
    seq![',', '"', 'e', 'x', 'p', 'i', 'r', 'e', 's', '_', 'a', 't', '"', ':']
}

/// The field name `value`.
pub open spec fn value_name() -> Seq<char> {
    seq!['v', 'a', 'l', 'u', 'e']
}

/// The field name `expires_at`.
pub open spec fn expiry_name() -> Seq<char> {
    seq!['e', 'x', 'p', 'i', 'r', 'e', 's', '_', 'a', 't']
}

/// How an expiry is written.
pub open spec fn expiry_text(e: Option<u64>) -> Seq<char> {
    match e {
        Some(n) => decimal(n as nat),
        None => seq!['n', 'u', 'l', 'l'],
    }
}

/// One member of the document: key, then the entry object with the value's JSON text `vt`.
pub open spec fn record_text(k: Seq<char>, vt: Seq<char>, e: Option<u64>) -> Seq<char> {
    json_quoted(k) + seq![':'] + value_opening() + vt + expiry_opening() + expiry_text(e) + seq!['}']
}

/// The first `n` members, separated by commas.
pub open spec fn records_text(s: Seq<(Seq<char>, Entry)>, texts: Seq<Seq<char>>, n: nat) -> Seq<char>
    decreases n,
{
    if n == 0 {
        Seq::empty()
    } else if n == 1 {
        record_text(s[0].0, texts[0], s[0].1.expires_at)
    } else {
        records_text(s, texts, (n - 1) as nat) + seq![','] + record_text(
            s[n - 1].0,
            texts[n - 1],
            s[n - 1].1.expires_at,
        )
    }
}

/// The document for slots `s` whose values have JSON texts `texts`.
pub open spec fn document_text(s: Seq<(Seq<char>, Entry)>, texts: Seq<Seq<char>>) -> Seq<char> {
    seq!['{'] + records_text(s, texts, s.len()) + seq!['}']
}

/// The JSON texts of the slots' values.
pub open spec fn value_texts(s: Seq<(Seq<char>, Entry)>) -> Seq<Seq<char>> {
    s.map_values(|x: (Seq<char>, Entry)| value_json(x.1.value))
}

/// `doc` is the document `encode` writes for slots `s`.
pub open spec fn is_document(s: Seq<(Seq<char>, Entry)>, doc: Seq<char>) -> bool {
    doc == document_text(s, value_texts(s))
}

/// A decoded mapping `m` gives back the keys of slots `s`, their expiries, and
/// each value as serde_json reads it back from the text it was written as.
pub open spec fn restores(m: Map<Seq<char>, Entry>, s: Seq<(Seq<char>, Entry)>) -> bool {
    &&& m.dom() == table_map(s).dom()
    &&& forall|k: Seq<char>| #[trigger] m.contains_key(k) ==> m[k].expires_at == table_map(s)[k].expires_at
    &&& forall|k: Seq<char>| #[trigger] m.contains_key(k) ==> m[k].value == parsed_value(value_json(table_map(s)[k].value))
}

/// The expiry stored for an entry object whose `expires_at` field is `f`: none
/// when absent or `null`, the number when it is an unsigned integer, and `None`
/// (not storable) otherwise.
pub open spec fn stored_expiry(f: Option<serde_json::Value>) -> Option<Option<u64>> {
    match f {
        None => Some(None),
        Some(x) => if json_u64(x) is Some {
            Some(json_u64(x))
        } else if json_null(x) {
            Some(None)
        } else {
            None
        },
    }
}

/// A parsed entry object can be stored: it has a `value` and a storable expiry.
pub open spec fn storable(fields: Seq<(String, serde_json::Value)>) -> bool {
    field_value(fields, value_name()) is Some && stored_expiry(field_value(fields, expiry_name())) is Some
}

/// The entry a storable entry object stands for.
pub open spec fn stored_entry(fields: Seq<(String, serde_json::Value)>) -> Entry {
    Entry {
        value: field_value(fields, value_name()).unwrap(),
        expires_at: stored_expiry(field_value(fields, expiry_name())).unwrap(),
    }
}

/// The value of the first field named `name`.
pub open spec fn field_value(fields: Seq<(String, serde_json::Value)>, name: Seq<char>) -> Option<
    serde_json::Value,
>
    decreases fields.len(),
{
    if fields.len() == 0 {
        None
    } else if fields[0].0@ == name {
        Some(fields[0].1)
    } else {
        field_value(fields.drop_first(), name)
    }
}

proof fn lemma_records_text_prefix(s: Seq<(Seq<char>, Entry)>, texts: Seq<Seq<char>>, x: Seq<char>, n: nat)
    requires
        n <= texts.len(),
    ensures
        records_text(s, texts.push(x), n) == records_text(s, texts, n),
    decreases n,
{
    if n > 1 {
        lemma_records_text_prefix(s, texts, x, (n - 1) as nat);
    }
}

/// The digit `d` as text.
fn digit_str(d: u64) -> (r: &'static str)
    requires
        d < 10,
    ensures
        r@ == seq![digit_char(d as int)],
{
    proof {
        reveal_strlit("0");
        reveal_strlit("1");
        reveal_strlit("2");
        reveal_strlit("3");
        reveal_strlit("4");
        reveal_strlit("5");
        reveal_strlit("6");
        reveal_strlit("7");
        reveal_strlit("8");
        reveal_strlit("9");
    }
    let r = if d == 0 {
        "0"
    } else if d == 1 {
        "1"
    } else if d == 2 {
        "2"
    } else if d == 3 {
        "3"
    } else if d == 4 {
        "4"
    } else if d == 5 {
        "5"
    } else if d == 6 {
        "6"
    } else if d == 7 {
        "7"
    } else if d == 8 {
        "8"
    } else {
        "9"
    };
    assert(r@ =~= seq![digit_char(d as int)]);
    r
}

/// Appends the decimal numeral of `n`.
pub fn push_decimal(out: &mut String, n: u64)
    ensures
        final(out)@ == old(out)@ + decimal(n as nat),
    decreases n,
{
    if n >= 10 {
        push_decimal(out, n / 10);
    }
    out.append(digit_str(n % 10));
    assert(final(out)@ =~= old(out)@ + decimal(n as nat));
}

/// Whether `c` is white space.
fn space_char(c: char) -> (r: bool)
    ensures
        r == is_space(c),
{
    ('\t' <= c && c <= '\r') || c == ' ' || c == '\u{85}' || c == '\u{a0}' || c == '\u{1680}'
        || ('\u{2000}' <= c && c <= '\u{200a}') || c == '\u{2028}' || c == '\u{2029}'
        || c == '\u{202f}' || c == '\u{205f}' || c == '\u{3000}'
}

/// Whether `s` holds nothing but white space.
pub fn is_blank(s: &str) -> (r: bool)
    ensures
        r == blank(s@),
{
    let n = s.unicode_len();
    let mut i: usize = 0;
    while i < n
        invariant
            n == s@.len(),
            i <= n,
            forall|j: int| 0 <= j < i ==> is_space(#[trigger] s@[j]),
        decreases n - i,
    {
        if !space_char(s.get_char(i)) {
            return false;
        }
        i = i + 1;
    }
    true
}

/// Whether two texts are equal.
fn same_text(a: &str, b: &str) -> (r: bool)
    ensures
        r == (a@ == b@),
{
    if a.unicode_len() != b.unicode_len() {
        return false;
    }
    let r = starts_with(a, b);
    assert(a@ =~= a@.subrange(0, b@.len() as int));
    r
}

/// A serde_json error as the store's own, carrying the error's text.
pub fn from_json_error(e: serde_json::Error) -> (r: TinyKVError)
    ensures
        r matches TinyKVError::Serialization(m) && to_string_from_display_ensures::<serde_json::Error>(&e, m),
{
    TinyKVError::Serialization(e.to_string())
}

/// The document for `table`: its slots in order, each value written as its JSON text.
pub fn encode(table: &EntryTable) -> (r: Result<String, TinyKVError>)
    ensures
        r is Ok,
        r matches Ok(t) ==> is_document(table.entries(), t@),
{
    let ghost s = table.entries();
    let ghost mut texts: Seq<Seq<char>> = Seq::empty();
    let mut out = String::new();
    out.append("{");
    proof {
        reveal_strlit("{");
        reveal_strlit(",");
        reveal_strlit(":");
        reveal_strlit("{\"value\":");
        reveal_strlit(",\"expires_at\":");
        reveal_strlit("null");
        reveal_strlit("}");
        assert(out@ =~= seq!['{'] + records_text(s, texts, 0));
    }
    let n = table.slot_count();
    let mut i: usize = 0;
    while i < n
        invariant
            n == s.len(),
            s == table.entries(),
            i <= n,
            texts.len() == i,
            forall|j: int| 0 <= j < i ==> texts[j] == value_json(#[trigger] s[j].1.value),
            out@ == seq!['{'] + records_text(s, texts, i as nat),
        decreases n - i,
    {
        proof {
            reveal_strlit(",");
            reveal_strlit(":");
            reveal_strlit("{\"value\":");
            reveal_strlit(",\"expires_at\":");
            reveal_strlit("null");
            reveal_strlit("}");
        }
        let ghost before = out@;
        if i > 0 {
            out.append(",");
        }
        let key = match quote(table.key_at(i).as_str()) {
            Ok(q) => q,
            Err(e) => return Err(from_json_error(e)),
        };
        let entry = table.entry_at(i);
        let vt = match value_text(&entry.value) {
            Ok(t) => t,
            Err(e) => return Err(from_json_error(e)),
        };
        out.append(key.as_str());
        out.append(":");
        out.append("{\"value\":");
        out.append(vt.as_str());
        out.append(",\"expires_at\":");
        match entry.expires_at {
            Some(t) => push_decimal(&mut out, t),
            None => out.append("null"),
        }
        out.append("}");
        proof {
            let rec = record_text(s[i as int].0, vt@, s[i as int].1.expires_at);
            lemma_records_text_prefix(s, texts, vt@, i as nat);
            texts = texts.push(vt@);
            if i == 0 {
                assert(out@ =~= before + rec);
            } else {
                assert(out@ =~= before + seq![','] + rec);
            }
            assert(out@ =~= seq!['{'] + records_text(s, texts, (i + 1) as nat));
        }
        i = i + 1;
    }
    out.append("}");
    assert(texts =~= value_texts(s));
    assert(out@ =~= document_text(s, texts));
    Ok(out)
}

/// The first field named `name`.
fn find_field<'a>(fields: &'a Vec<(String, serde_json::Value)>, name: &str) -> (r: Option<&'a serde_json::Value>)
    ensures
        r matches Some(v) ==> field_value(fields@, name@) == Some(*v),
        r is None ==> field_value(fields@, name@) is None,
{
    let n = fields.len();
    let mut i: usize = 0;
    assert(fields@.subrange(0, n as int) =~= fields@);
    while i < n
        invariant
            n == fields@.len(),
            i <= n,
            field_value(fields@, name@) == field_value(fields@.subrange(i as int, n as int), name@),
        decreases n - i,
    {
        let ghost rest = fields@.subrange(i as int, n as int);
        assert(rest.drop_first() =~= fields@.subrange(i + 1, n as int));
        if same_text(fields[i].0.as_str(), name) {
            return Some(&fields[i].1);
        }
        i = i + 1;
    }
    None
}

/// The table that parsed records stand for: each record is a stored key with the
/// fields of its entry object. It succeeds exactly when every entry object is
/// storable (a `value` field, and an `expires_at` that is absent, `null` or an
/// unsigned integer); otherwise it is a serialization error.
pub fn table_from_records(records: Vec<(String, Vec<(String, serde_json::Value)>)>) -> (r: Result<
    EntryTable,
    TinyKVError,
>)
    requires
        forall|i: int, j: int|
            0 <= i < records@.len() && 0 <= j < records@.len() && i != j ==> #[trigger] records@[i].0@
                != #[trigger] records@[j].0@,
    ensures
        r is Ok <==> forall|i: int| 0 <= i < records@.len() ==> storable(#[trigger] records@[i].1@),
        r matches Ok(t) ==> {
            &&& t.wf()
            &&& t@.dom() == Set::new(|k: Seq<char>| exists|i: int| 0 <= i < records@.len() && records@[i].0@ == k)
            &&& forall|i: int| 0 <= i < records@.len() ==> t@[#[trigger] records@[i].0@] == stored_entry(records@[i].1@)
        },
        r matches Err(e) ==> e is Serialization,
{
    let mut t = EntryTable::new();
    let n = records.len();
    let mut i: usize = 0;
    while i < n
        invariant
            n == records@.len(),
            i <= n,
            t.wf(),
            forall|a: int, b: int|
                0 <= a < records@.len() && 0 <= b < records@.len() && a != b ==> #[trigger] records@[a].0@
                    != #[trigger] records@[b].0@,
            t@.dom() == Set::new(|k: Seq<char>| exists|a: int| 0 <= a < i && records@[a].0@ == k),
            forall|a: int| 0 <= a < i ==> t@[#[trigger] records@[a].0@] == stored_entry(records@[a].1@),
            forall|a: int| 0 <= a < i ==> storable(#[trigger] records@[a].1@),
        decreases n - i,
    {
        proof {
            reveal_strlit("value");
            reveal_strlit("expires_at");
            assert("value"@ =~= value_name());
            assert("expires_at"@ =~= expiry_name());
        }
        let fields = &records[i].1;
        let value = match find_field(fields, "value") {
            Some(v) => v.clone(),
            None => {
                return Err(TinyKVError::Serialization("missing field `value`".to_string()));
            },
        };
        let expires_at = match find_field(fields, "expires_at") {
            None => None,
            Some(v) => match v.as_u64() {
                Some(n) => Some(n),
                None => {
                    if v.is_null() {
                        None
                    } else {
                        return Err(
                            TinyKVError::Serialization("invalid `expires_at`".to_string()),
                        );
                    }
                },
            },
        };
        let ghost before = t@;
        let ghost k = records@[i as int].0@;
        assert(Entry { value, expires_at } == stored_entry(records@[i as int].1@));
        t.insert(records[i].0.clone(), Entry { value, expires_at });
        proof {
            assert forall|a: int| 0 <= a < i implies records@[a].0@ != k by {}
            assert forall|a: int| 0 <= a < i + 1 implies t@[#[trigger] records@[a].0@] == stored_entry(records@[a].1@) by {
                if a < i {
                    assert(before[records@[a].0@] == t@[records@[a].0@]);
                }
            }
            assert(t@.dom() =~= Set::new(|x: Seq<char>| exists|a: int| 0 <= a < i + 1 && records@[a].0@ == x)) by {
                assert forall|x: Seq<char>| t@.dom().contains(x) implies (exists|a: int| 0 <= a < i + 1 && records@[a].0@ == x) by {
                    if x != k {
                        assert(before.dom().contains(x));
                    }
                }
            }
        }
        i = i + 1;
    }
    Ok(t)
}

/// The table in a persisted document.
/// - A blank document is an empty table.
/// - A non-blank one that does not begin with `{` is a serialization error.
/// - A document that `encode` wrote, once parsed, gives back its keys and expiries.
pub fn decode(text: &str) -> (r: Result<EntryTable, TinyKVError>)
    ensures
        blank(text@) ==> (r matches Ok(t) && t@ == Map::<Seq<char>, Entry>::empty()),
        !blank(text@) && first_token(text@) != Some('{') ==> r is Err,
        r matches Ok(t) ==> t.wf(),
        r matches Ok(t) ==> forall|s: Seq<(Seq<char>, Entry)>|
            unique_keys(s) && #[trigger] is_document(s, text@) ==> restores(t@, s),
        r matches Err(e) ==> e is Serialization,
{
    if is_blank(text) {
        proof {
            assert forall|s: Seq<(Seq<char>, Entry)>| #[trigger] is_document(s, text@) implies false by {
                assert(text@[0] == '{');
                assert(is_space(text@[0]));
            }
        }
        return Ok(EntryTable::new());
    }
    match parse_records(text) {
        Ok(records) => {
            let ghost rv = records@;
            let r = table_from_records(records);
            proof {
                if r is Ok {
                    let t = r->Ok_0;
                    assert forall|s: Seq<(Seq<char>, Entry)>|
                        unique_keys(s) && #[trigger] is_document(s, text@) implies restores(t@, s) by {
                        assert(text@ == document_text(s, value_texts(s)));
                        assert forall|k: Seq<char>| t@.dom().contains(k) <==> table_map(s).dom().contains(k) by {
                            assert(has_record(rv, k) <==> has_key(s, k));
                        }
                        assert(t@.dom() =~= table_map(s).dom());
                        assert forall|k: Seq<char>| #[trigger] t@.contains_key(k) implies t@[k].expires_at
                            == table_map(s)[k].expires_at && t@[k].value == parsed_value(value_json(table_map(s)[k].value)) by {
                            let i = choose|i: int| 0 <= i < rv.len() && rv[i].0@ == k;
                            assert(has_record(rv, k));
                            assert(has_key(s, k));
                            let j = choose|j: int| 0 <= j < s.len() && s[j].0 == k;
                            crate::table::lemma_slot_in_map(s, j);
                            assert(rv[i].0@ == s[j].0);
                            assert(t@[rv[i].0@] == stored_entry(rv[i].1@));
                        }
                    }
                }
            }
            r
        },
        Err(e) => Err(from_json_error(e)),
    }
}

} // verus!
