//! The collection's file format: a canonical JSON document. The emitter is
//! specified to the character. The reader accepts exactly the emitter's
//! images and is proved sound and complete for them: whatever it accepts
//! re-serializes to the very text it read, and the serialization of any
//! encodable collection reads back to that same collection
//! (`lemma_doc_round_trip`), every field preserved, sub-stat values to the
//! character.
use vstd::prelude::*;
use vstd::string::*;
use crate::good::{ArtifactV, CharacterV, GoodArtifact, GoodCharacter, GoodSubstat, GoodTalents,
    GoodType, GoodWeapon, SubstatV, WeaponV};
use crate::strutil::{all_dec_digits, decimal_digits, digit_char, digit_val, digits_val,
    is_dec_digit, parse_u8_spec, push_decimal};

verus! {

/// Text that can stand inside a JSON string without escaping: no quote, no
/// backslash, no control character.
pub open spec fn text_ok(t: Seq<char>) -> bool {
    forall|i: int|
        0 <= i < t.len() ==> (#[trigger] t[i]) != '"' && t[i] != '\\' && t[i] as u32 >= 32
}

/// A character that may stand in JSON number text.
pub open spec fn is_number_char(c: char) -> bool {
    is_dec_digit(c) || c == '.' || c == '-' || c == '+' || c == 'e' || c == 'E'
}

/// Exact decimal value text as a sub-stat carries it: nonempty, made of
/// number characters only.
pub open spec fn number_text_ok(t: Seq<char>) -> bool {
    t.len() > 0 && (forall|i: int| 0 <= i < t.len() ==> is_number_char(#[trigger] t[i]))
}

/// Whether a sub-stat can stand in the file unescaped.
pub open spec fn substat_ok(v: SubstatV) -> bool {
    text_ok(v.key) && number_text_ok(v.value)
}

/// Whether an artifact can stand in the file unescaped.
pub open spec fn artifact_ok(a: ArtifactV) -> bool {
    &&& text_ok(a.set_key)
    &&& text_ok(a.slot_key)
    &&& text_ok(a.main_stat_key)
    &&& text_ok(a.location)
    &&& forall|i: int| 0 <= i < a.substats.len() ==> substat_ok(#[trigger] a.substats[i])
}

/// Whether a weapon can stand in the file unescaped.
pub open spec fn weapon_ok(w: WeaponV) -> bool {
    text_ok(w.key) && text_ok(w.location)
}

/// Whether a character entry can stand in the file unescaped.
pub open spec fn character_ok(c: CharacterV) -> bool {
    text_ok(c.key)
}

/// Whether a whole collection can stand in the file unescaped.
pub open spec fn encodable(g: crate::good::GoodV) -> bool {
    &&& text_ok(g.format)
    &&& text_ok(g.source)
    &&& forall|i: int| 0 <= i < g.characters.len() ==> character_ok(#[trigger] g.characters[i])
    &&& forall|i: int| 0 <= i < g.artifacts.len() ==> artifact_ok(#[trigger] g.artifacts[i])
    &&& forall|i: int| 0 <= i < g.weapons.len() ==> weapon_ok(#[trigger] g.weapons[i])
}

/// A quoted JSON string, unescaped.
pub open spec fn emit_qstr(t: Seq<char>) -> Seq<char> {
    seq!['"'] + t + seq!['"']
}

/// A small number in decimal.
pub open spec fn emit_u8(n: u8) -> Seq<char> {
    decimal_digits(n as nat)
}

/// One sub-stat object.
pub open spec fn emit_substat(v: SubstatV) -> Seq<char> {
    "{\"key\":"@ + emit_qstr(v.key) + ",\"value\":"@ + v.value + "}"@
}

/// Comma-joined sub-stat objects.
pub open spec fn emit_substat_items(items: Seq<SubstatV>) -> Seq<char>
    decreases items.len(),
{
    if items.len() == 0 {
        Seq::<char>::empty()
    } else if items.len() == 1 {
        emit_substat(items[0])
    } else {
        emit_substat(items[0]) + ","@ + emit_substat_items(items.drop_first())
    }
}

/// A sub-stat array.
pub open spec fn emit_substat_list(items: Seq<SubstatV>) -> Seq<char> {
    "["@ + emit_substat_items(items) + "]"@
}

/// One artifact object, fields in canonical order.
pub open spec fn emit_artifact(a: ArtifactV) -> Seq<char> {
    "{\"setKey\":"@ + emit_qstr(a.set_key) + ",\"slotKey\":"@ + emit_qstr(a.slot_key)
        + ",\"level\":"@ + emit_u8(a.level) + ",\"rarity\":"@ + emit_u8(a.rarity)
        + ",\"mainStatKey\":"@ + emit_qstr(a.main_stat_key) + ",\"location\":"@ + emit_qstr(
        a.location,
    ) + ",\"substats\":"@ + emit_substat_list(a.substats) + "}"@
}

/// One weapon object, fields in canonical order.
pub open spec fn emit_weapon(w: WeaponV) -> Seq<char> {
    "{\"key\":"@ + emit_qstr(w.key) + ",\"level\":"@ + emit_u8(w.level) + ",\"ascension\":"@
        + emit_u8(w.ascension) + ",\"refinement\":"@ + emit_u8(w.refinement) + ",\"location\":"@
        + emit_qstr(w.location) + "}"@
}

/// One character object, fields in canonical order.
pub open spec fn emit_character(c: CharacterV) -> Seq<char> {
    "{\"key\":"@ + emit_qstr(c.key) + ",\"level\":"@ + emit_u8(c.level) + ",\"constellation\":"@
        + emit_u8(c.constellation) + ",\"ascension\":"@ + emit_u8(c.ascension)
        + ",\"talent\":{\"auto\":"@ + emit_u8(c.talent.auto) + ",\"skill\":"@ + emit_u8(
        c.talent.skill,
    ) + ",\"burst\":"@ + emit_u8(c.talent.burst) + "}}"@
}

/// Comma-joined character objects.
pub open spec fn emit_character_items(items: Seq<CharacterV>) -> Seq<char>
    decreases items.len(),
{
    if items.len() == 0 {
        Seq::<char>::empty()
    } else if items.len() == 1 {
        emit_character(items[0])
    } else {
        emit_character(items[0]) + ","@ + emit_character_items(items.drop_first())
    }
}

/// Comma-joined artifact objects.
pub open spec fn emit_artifact_items(items: Seq<ArtifactV>) -> Seq<char>
    decreases items.len(),
{
    if items.len() == 0 {
        Seq::<char>::empty()
    } else if items.len() == 1 {
        emit_artifact(items[0])
    } else {
        emit_artifact(items[0]) + ","@ + emit_artifact_items(items.drop_first())
    }
}

/// Comma-joined weapon objects.
pub open spec fn emit_weapon_items(items: Seq<WeaponV>) -> Seq<char>
    decreases items.len(),
{
    if items.len() == 0 {
        Seq::<char>::empty()
    } else if items.len() == 1 {
        emit_weapon(items[0])
    } else {
        emit_weapon(items[0]) + ","@ + emit_weapon_items(items.drop_first())
    }
}

/// Appending one more item to a comma-joined list appends a separator and
/// the item's text.
proof fn lemma_emit_substat_items_snoc(items: Seq<SubstatV>, x: SubstatV)
    ensures
        emit_substat_items(items.push(x)) == if items.len() == 0 {
            emit_substat(x)
        } else {
            emit_substat_items(items) + ","@ + emit_substat(x)
        },
    decreases items.len(),
{
    if items.len() > 0 {
        lemma_emit_substat_items_snoc(items.drop_first(), x);
        assert(items.push(x).drop_first() =~= items.drop_first().push(x));
        assert(items.push(x)[0] == items[0]);
        assert(emit_substat_items(items.push(x)) =~= emit_substat_items(items) + ","@
            + emit_substat(x));
    } else {
        assert(items.push(x).len() == 1);
        assert(items.push(x)[0] == x);
    }
}

/// Appending one more item to a comma-joined list appends a separator and
/// the item's text.
proof fn lemma_emit_character_items_snoc(items: Seq<CharacterV>, x: CharacterV)
    ensures
        emit_character_items(items.push(x)) == if items.len() == 0 {
            emit_character(x)
        } else {
            emit_character_items(items) + ","@ + emit_character(x)
        },
    decreases items.len(),
{
    if items.len() > 0 {
        lemma_emit_character_items_snoc(items.drop_first(), x);
        assert(items.push(x).drop_first() =~= items.drop_first().push(x));
        assert(items.push(x)[0] == items[0]);
        assert(emit_character_items(items.push(x)) =~= emit_character_items(items) + ","@
            + emit_character(x));
    } else {
        assert(items.push(x).len() == 1);
        assert(items.push(x)[0] == x);
    }
}

/// Appending one more item to a comma-joined list appends a separator and
/// the item's text.
proof fn lemma_emit_artifact_items_snoc(items: Seq<ArtifactV>, x: ArtifactV)
    ensures
        emit_artifact_items(items.push(x)) == if items.len() == 0 {
            emit_artifact(x)
        } else {
            emit_artifact_items(items) + ","@ + emit_artifact(x)
        },
    decreases items.len(),
{
    if items.len() > 0 {
        lemma_emit_artifact_items_snoc(items.drop_first(), x);
        assert(items.push(x).drop_first() =~= items.drop_first().push(x));
        assert(items.push(x)[0] == items[0]);
        assert(emit_artifact_items(items.push(x)) =~= emit_artifact_items(items) + ","@
            + emit_artifact(x));
    } else {
        assert(items.push(x).len() == 1);
        assert(items.push(x)[0] == x);
    }
}

/// Appending one more item to a comma-joined list appends a separator and
/// the item's text.
proof fn lemma_emit_weapon_items_snoc(items: Seq<WeaponV>, x: WeaponV)
    ensures
        emit_weapon_items(items.push(x)) == if items.len() == 0 {
            emit_weapon(x)
        } else {
            emit_weapon_items(items) + ","@ + emit_weapon(x)
        },
    decreases items.len(),
{
    if items.len() > 0 {
        lemma_emit_weapon_items_snoc(items.drop_first(), x);
        assert(items.push(x).drop_first() =~= items.drop_first().push(x));
        assert(items.push(x)[0] == items[0]);
        assert(emit_weapon_items(items.push(x)) =~= emit_weapon_items(items) + ","@ + emit_weapon(
            x,
        ));
    } else {
        assert(items.push(x).len() == 1);
        assert(items.push(x)[0] == x);
    }
}

/// The document's header: format marker, schema version, tool signature,
/// and the marker that opens the character list.
pub open spec fn emit_doc_header(g: crate::good::GoodV) -> Seq<char> {
    "{\"format\":"@ + emit_qstr(g.format) + ",\"version\":"@ + emit_u8(g.version) + ",\"source\":"@
        + emit_qstr(g.source) + ",\"characters\":"@
}

/// The document's three entity arrays and the closing brace.
pub open spec fn emit_doc_lists(g: crate::good::GoodV) -> Seq<char> {
    ("["@ + emit_character_items(g.characters) + "]"@) + (",\"artifacts\":"@ + ("["@
        + emit_artifact_items(g.artifacts) + "]"@)) + (",\"weapons\":"@ + ("["@
        + emit_weapon_items(g.weapons) + "]"@)) + "}"@
}

/// The whole collection document, fields in canonical order.
pub open spec fn emit_doc(g: crate::good::GoodV) -> Seq<char> {
    emit_doc_header(g) + emit_doc_lists(g)
}

/// Reads an exact literal: the positions `pos` onward must carry `lit`.
pub open spec fn p_lit(s: Seq<char>, pos: int, lit: Seq<char>) -> Option<int> {
    if 0 <= pos && pos + lit.len() <= s.len() && s.subrange(pos, pos + lit.len()) == lit {
        Some(pos + lit.len())
    } else {
        None
    }
}

/// The first position at or after `i` where quoted text ends: a quote, an
/// escape or a control character.
pub open spec fn scan_text_end(s: Seq<char>, i: int) -> int
    decreases s.len() - i when 0 <= i <= s.len()
{
    if i >= s.len() {
        i
    } else if s[i] == '"' || s[i] == '\\' || (s[i] as u32) < 32 {
        i
    } else {
        scan_text_end(s, i + 1)
    }
}

/// A quoted string: leading quote, clean text, closing quote.
pub open spec fn p_qstr(s: Seq<char>, pos: int) -> Option<(Seq<char>, int)> {
    if 0 <= pos < s.len() && s[pos] == '"' {
        let j = scan_text_end(s, pos + 1);
        if j < s.len() && s[j] == '"' {
            Some((s.subrange(pos + 1, j), j + 1))
        } else {
            None
        }
    } else {
        None
    }
}

/// The first position at or after `i` that does not hold a number character.
pub open spec fn scan_num_end(s: Seq<char>, i: int) -> int
    decreases s.len() - i when 0 <= i <= s.len()
{
    if i >= s.len() {
        i
    } else if !is_number_char(s[i]) {
        i
    } else {
        scan_num_end(s, i + 1)
    }
}

/// Raw number text: one or more number characters.
pub open spec fn p_numtext(s: Seq<char>, pos: int) -> Option<(Seq<char>, int)> {
    if 0 <= pos <= s.len() {
        let j = scan_num_end(s, pos);
        if j > pos {
            Some((s.subrange(pos, j), j))
        } else {
            None
        }
    } else {
        None
    }
}

/// The first position at or after `i` that does not hold a decimal digit.
pub open spec fn scan_digit_end(s: Seq<char>, i: int) -> int
    decreases s.len() - i when 0 <= i <= s.len()
{
    if i >= s.len() {
        i
    } else if !is_dec_digit(s[i]) {
        i
    } else {
        scan_digit_end(s, i + 1)
    }
}

/// A small decimal number.
pub open spec fn p_u8(s: Seq<char>, pos: int) -> Option<(u8, int)> {
    if 0 <= pos <= s.len() {
        let j = scan_digit_end(s, pos);
        if j > pos {
            match parse_u8_spec(s.subrange(pos, j)) {
                Some(v) => Some((v, j)),
                None => None,
            }
        } else {
            None
        }
    } else {
        None
    }
}

proof fn lemma_p_lit_inverts(s: Seq<char>, pos: int, lit: Seq<char>)
    requires
        0 <= pos,
        pos + lit.len() <= s.len(),
        s.subrange(pos, pos + lit.len()) == lit,
    ensures
        p_lit(s, pos, lit) == Some(pos + lit.len()),
{
}

proof fn lemma_scan_text_end(s: Seq<char>, i: int, t: Seq<char>)
    requires
        0 <= i,
        i + t.len() < s.len(),
        s.subrange(i, i + t.len()) == t,
        text_ok(t),
        s[i + t.len()] == '"',
    ensures
        scan_text_end(s, i) == i + t.len(),
    decreases t.len(),
{
    if t.len() == 0 {
    } else {
        assert(s[i] == t[0]);
        assert(t[0] != '"' && t[0] != '\\' && t[0] as u32 >= 32);
        assert(s.subrange(i + 1, i + 1 + (t.len() - 1)) =~= t.drop_first());
        assert(text_ok(t.drop_first())) by {
            assert(forall|k: int|
                0 <= k < t.drop_first().len() ==> #[trigger] t.drop_first()[k] == t[k + 1]);
        }
        lemma_scan_text_end(s, i + 1, t.drop_first());
    }
}

proof fn lemma_scan_num_end(s: Seq<char>, i: int, t: Seq<char>)
    requires
        0 <= i,
        i + t.len() < s.len(),
        s.subrange(i, i + t.len()) == t,
        forall|k: int| 0 <= k < t.len() ==> is_number_char(#[trigger] t[k]),
        !is_number_char(s[i + t.len()]),
    ensures
        scan_num_end(s, i) == i + t.len(),
    decreases t.len(),
{
    if t.len() == 0 {
    } else {
        assert(s[i] == t[0]);
        assert(s.subrange(i + 1, i + 1 + (t.len() - 1)) =~= t.drop_first());
        assert(forall|k: int|
            0 <= k < t.drop_first().len() ==> #[trigger] t.drop_first()[k] == t[k + 1]);
        lemma_scan_num_end(s, i + 1, t.drop_first());
    }
}

proof fn lemma_scan_digit_end(s: Seq<char>, i: int, t: Seq<char>)
    requires
        0 <= i,
        i + t.len() < s.len(),
        s.subrange(i, i + t.len()) == t,
        all_dec_digits(t),
        !is_dec_digit(s[i + t.len()]),
    ensures
        scan_digit_end(s, i) == i + t.len(),
    decreases t.len(),
{
    if t.len() == 0 {
    } else {
        assert(s[i] == t[0]);
        assert(s.subrange(i + 1, i + 1 + (t.len() - 1)) =~= t.drop_first());
        assert(all_dec_digits(t.drop_first())) by {
            assert(forall|k: int|
                0 <= k < t.drop_first().len() ==> #[trigger] t.drop_first()[k] == t[k + 1]);
        }
        lemma_scan_digit_end(s, i + 1, t.drop_first());
    }
}

proof fn lemma_p_qstr_inverts(s: Seq<char>, pos: int, t: Seq<char>)
    requires
        0 <= pos,
        pos + t.len() + 2 <= s.len(),
        s.subrange(pos, pos + t.len() + 2) == emit_qstr(t),
        text_ok(t),
    ensures
        emit_qstr(t).len() == t.len() + 2,
        p_qstr(s, pos) == Some((t, pos + t.len() + 2)),
{
    let e = emit_qstr(t);
    let w = s.subrange(pos, pos + t.len() + 2);
    assert(w[0] == s[pos]);
    assert(e[0] == '"');
    assert(s[pos] == '"');
    assert(w[1 + t.len() as int] == s[pos + 1 + t.len()]);
    assert(e[1 + t.len() as int] == '"');
    assert(s[pos + 1 + t.len()] == '"');
    assert forall|k: int| 0 <= k < t.len() implies s.subrange(pos + 1, pos + 1 + t.len())[k]
        == t[k] by {
        assert(s.subrange(pos + 1, pos + 1 + t.len())[k] == s[pos + 1 + k]);
        assert(w[1 + k] == s[pos + 1 + k]);
        assert(e[1 + k] == t[k]);
    }
    assert(s.subrange(pos + 1, pos + 1 + t.len()) =~= t);
    lemma_scan_text_end(s, pos + 1, t);
    assert(s.subrange(pos + 1, pos + 1 + t.len()) == t);
}

/// The decimal rendering of a number is canonical digit text that reads back
/// to the number.
proof fn lemma_decimal_digits_props(n: nat)
    ensures
        decimal_digits(n).len() >= 1,
        all_dec_digits(decimal_digits(n)),
        digits_val(decimal_digits(n)) == n,
        decimal_digits(n)[0] != '+',
    decreases n,
{
    if n < 10 {
        let t = decimal_digits(n);
        assert(t =~= seq![digit_char(n)]);
        assert(is_dec_digit(digit_char(n)));
        assert(t.drop_last() =~= Seq::<char>::empty());
        assert(digits_val(Seq::<char>::empty()) == 0);
        assert(t.last() == digit_char(n));
        assert(digits_val(t) == digit_val(digit_char(n)));
        assert(digit_val(digit_char(n)) == n);
    } else {
        assert(n / 10 < n) by (nonlinear_arith)
            requires
                n >= 10,
        ;
        lemma_decimal_digits_props(n / 10);
        let h = decimal_digits(n / 10);
        let t = h.push(digit_char(n % 10));
        assert(decimal_digits(n) == t);
        assert(is_dec_digit(digit_char(n % 10)));
        assert(all_dec_digits(t)) by {
            assert(forall|k: int| 0 <= k < h.len() ==> #[trigger] t[k] == h[k]);
            assert(t[t.len() - 1] == digit_char(n % 10));
        }
        assert(t.drop_last() =~= h);
        assert(digit_val(digit_char(n % 10)) == n % 10);
        assert(digits_val(t) == (n / 10) * 10 + n % 10);
        assert((n / 10) * 10 + n % 10 == n) by (nonlinear_arith);
        assert(t[0] == h[0]);
    }
}

proof fn lemma_p_u8_inverts(s: Seq<char>, pos: int, n: u8)
    requires
        0 <= pos,
        pos + emit_u8(n).len() < s.len(),
        s.subrange(pos, pos + emit_u8(n).len()) == emit_u8(n),
        !is_dec_digit(s[pos + emit_u8(n).len()]),
    ensures
        p_u8(s, pos) == Some((n, pos + emit_u8(n).len())),
{
    lemma_decimal_digits_props(n as nat);
    lemma_scan_digit_end(s, pos, emit_u8(n));
    let t = s.subrange(pos, pos + emit_u8(n).len());
    assert(t == decimal_digits(n as nat));
    assert(parse_u8_spec(t) == Some(n)) by {
        assert(t[0] != '+');
        assert(digits_val(t) == n as nat);
        assert(digits_val(t) <= u8::MAX);
    }
}

/// One sub-stat object, read back.
pub open spec fn p_substat(s: Seq<char>, pos: int) -> Option<(SubstatV, int)> {
    match p_lit(s, pos, "{\"key\":"@) {
        None => None,
        Some(p1) => match p_qstr(s, p1) {
            None => None,
            Some(kp) => match p_lit(s, kp.1, ",\"value\":"@) {
                None => None,
                Some(p3) => match p_numtext(s, p3) {
                    None => None,
                    Some(vp) => match p_lit(s, vp.1, "}"@) {
                        None => None,
                        Some(p5) => Some((SubstatV { key: kp.0, value: vp.0 }, p5)),
                    },
                },
            },
        },
    }
}

/// A window of a window of `s` is a window of `s`.
proof fn lemma_piece(s: Seq<char>, pos: int, len: int, a: int, b: int, piece: Seq<char>)
    requires
        0 <= pos,
        pos + len <= s.len(),
        0 <= a <= b <= len,
        s.subrange(pos, pos + len).subrange(a, b) == piece,
    ensures
        s.subrange(pos + a, pos + b) == piece,
{
    assert(s.subrange(pos + a, pos + b) =~= s.subrange(pos, pos + len).subrange(a, b));
}

#[verifier::rlimit(100)]
#[verifier::spinoff_prover]
proof fn lemma_p_substat_inverts(s: Seq<char>, pos: int, v: SubstatV)
    requires
        substat_ok(v),
        0 <= pos,
        pos + emit_substat(v).len() <= s.len(),
        s.subrange(pos, pos + emit_substat(v).len()) == emit_substat(v),
    ensures
        p_substat(s, pos) == Some((v, pos + emit_substat(v).len())),
{
    reveal_strlit("}");
    let e = emit_substat(v);
    let l1 = "{\"key\":"@.len() as int;
    let l2 = ",\"value\":"@.len() as int;
    let kl = v.key.len() as int;
    let vl = v.value.len() as int;
    let li = e.len() as int;
    assert(li == l1 + (kl + 2) + l2 + vl + 1);
    let a2 = l1 + kl + 2;
    let a3 = a2 + l2;
    let a4 = a3 + vl;
    assert(e.subrange(0, l1) =~= "{\"key\":"@);
    lemma_piece(s, pos, li, 0, l1, "{\"key\":"@);
    lemma_p_lit_inverts(s, pos, "{\"key\":"@);
    assert(e.subrange(l1, a2) =~= emit_qstr(v.key));
    lemma_piece(s, pos, li, l1, a2, emit_qstr(v.key));
    lemma_p_qstr_inverts(s, pos + l1, v.key);
    assert(e.subrange(a2, a3) =~= ",\"value\":"@);
    lemma_piece(s, pos, li, a2, a3, ",\"value\":"@);
    lemma_p_lit_inverts(s, pos + a2, ",\"value\":"@);
    assert(e.subrange(a3, a4) =~= v.value);
    lemma_piece(s, pos, li, a3, a4, v.value);
    assert(s[pos + a4] == '}') by {
        assert(e[a4] == '}');
        assert(s.subrange(pos, pos + li)[a4] == s[pos + a4]);
    }
    assert(!is_number_char('}'));
    lemma_scan_num_end(s, pos + a3, v.value);
    assert(p_numtext(s, pos + a3) == Some((v.value, pos + a4)));
    assert(e.subrange(a4, li) =~= "}"@);
    lemma_piece(s, pos, li, a4, li, "}"@);
    lemma_p_lit_inverts(s, pos + a4, "}"@);
    assert(SubstatV { key: v.key, value: v.value } =~= v);
}

/// One weapon object, read back.
pub open spec fn p_weapon(s: Seq<char>, pos: int) -> Option<(WeaponV, int)> {
    match p_lit(s, pos, "{\"key\":"@) {
        None => None,
        Some(p1) => match p_qstr(s, p1) {
            None => None,
            Some(kp) => match p_lit(s, kp.1, ",\"level\":"@) {
                None => None,
                Some(p3) => match p_u8(s, p3) {
                    None => None,
                    Some(lv) => match p_lit(s, lv.1, ",\"ascension\":"@) {
                        None => None,
                        Some(p5) => match p_u8(s, p5) {
                            None => None,
                            Some(an) => match p_lit(s, an.1, ",\"refinement\":"@) {
                                None => None,
                                Some(p7) => match p_u8(s, p7) {
                                    None => None,
                                    Some(rf) => match p_lit(s, rf.1, ",\"location\":"@) {
                                        None => None,
                                        Some(p9) => match p_qstr(s, p9) {
                                            None => None,
                                            Some(lp) => match p_lit(s, lp.1, "}"@) {
                                                None => None,
                                                Some(p11) => Some(
                                                    (
                                                        WeaponV {
                                                            key: kp.0,
                                                            level: lv.0,
                                                            ascension: an.0,
                                                            refinement: rf.0,
                                                            location: lp.0,
                                                        },
                                                        p11,
                                                    ),
                                                ),
                                            },
                                        },
                                    },
                                },
                            },
                        },
                    },
                },
            },
        },
    }
}

#[verifier::rlimit(100)]
#[verifier::spinoff_prover]
proof fn lemma_p_weapon_inverts(s: Seq<char>, pos: int, w: WeaponV)
    requires
        weapon_ok(w),
        0 <= pos,
        pos + emit_weapon(w).len() <= s.len(),
        s.subrange(pos, pos + emit_weapon(w).len()) == emit_weapon(w),
    ensures
        p_weapon(s, pos) == Some((w, pos + emit_weapon(w).len())),
{
    reveal_strlit(",\"ascension\":");
    reveal_strlit(",\"refinement\":");
    reveal_strlit(",\"location\":");
    reveal_strlit("}");
    let e = emit_weapon(w);
    let l1 = "{\"key\":"@.len() as int;
    let l2 = ",\"level\":"@.len() as int;
    let l3 = ",\"ascension\":"@.len() as int;
    let l4 = ",\"refinement\":"@.len() as int;
    let l5 = ",\"location\":"@.len() as int;
    let dl = emit_u8(w.level).len() as int;
    let da = emit_u8(w.ascension).len() as int;
    let dr = emit_u8(w.refinement).len() as int;
    let kl = w.key.len() as int;
    let ll = w.location.len() as int;
    let li = e.len() as int;
    assert(li == l1 + (kl + 2) + l2 + dl + l3 + da + l4 + dr + l5 + (ll + 2) + 1);
    let a1 = l1;
    let a2 = a1 + kl + 2;
    let a3 = a2 + l2;
    let a4 = a3 + dl;
    let a5 = a4 + l3;
    let a6 = a5 + da;
    let a7 = a6 + l4;
    let a8 = a7 + dr;
    let a9 = a8 + l5;
    let a10 = a9 + ll + 2;
    assert(e.subrange(0, a1) =~= "{\"key\":"@);
    lemma_piece(s, pos, li, 0, a1, "{\"key\":"@);
    lemma_p_lit_inverts(s, pos, "{\"key\":"@);
    assert(e.subrange(a1, a2) =~= emit_qstr(w.key));
    lemma_piece(s, pos, li, a1, a2, emit_qstr(w.key));
    lemma_p_qstr_inverts(s, pos + a1, w.key);
    assert(e.subrange(a2, a3) =~= ",\"level\":"@);
    lemma_piece(s, pos, li, a2, a3, ",\"level\":"@);
    lemma_p_lit_inverts(s, pos + a2, ",\"level\":"@);
    assert(e.subrange(a3, a4) =~= emit_u8(w.level));
    lemma_piece(s, pos, li, a3, a4, emit_u8(w.level));
    assert(s[pos + a4] == ',') by {
        assert(e[a4] == ',');
        assert(s.subrange(pos, pos + li)[a4] == s[pos + a4]);
    }
    lemma_p_u8_inverts(s, pos + a3, w.level);
    assert(e.subrange(a4, a5) =~= ",\"ascension\":"@);
    lemma_piece(s, pos, li, a4, a5, ",\"ascension\":"@);
    lemma_p_lit_inverts(s, pos + a4, ",\"ascension\":"@);
    assert(e.subrange(a5, a6) =~= emit_u8(w.ascension));
    lemma_piece(s, pos, li, a5, a6, emit_u8(w.ascension));
    assert(s[pos + a6] == ',') by {
        assert(e[a6] == ',');
        assert(s.subrange(pos, pos + li)[a6] == s[pos + a6]);
    }
    lemma_p_u8_inverts(s, pos + a5, w.ascension);
    assert(e.subrange(a6, a7) =~= ",\"refinement\":"@);
    lemma_piece(s, pos, li, a6, a7, ",\"refinement\":"@);
    lemma_p_lit_inverts(s, pos + a6, ",\"refinement\":"@);
    assert(e.subrange(a7, a8) =~= emit_u8(w.refinement));
    lemma_piece(s, pos, li, a7, a8, emit_u8(w.refinement));
    assert(s[pos + a8] == ',') by {
        assert(e[a8] == ',');
        assert(s.subrange(pos, pos + li)[a8] == s[pos + a8]);
    }
    lemma_p_u8_inverts(s, pos + a7, w.refinement);
    assert(e.subrange(a8, a9) =~= ",\"location\":"@);
    lemma_piece(s, pos, li, a8, a9, ",\"location\":"@);
    lemma_p_lit_inverts(s, pos + a8, ",\"location\":"@);
    assert(e.subrange(a9, a10) =~= emit_qstr(w.location));
    lemma_piece(s, pos, li, a9, a10, emit_qstr(w.location));
    lemma_p_qstr_inverts(s, pos + a9, w.location);
    assert(e.subrange(a10, li) =~= "}"@);
    lemma_piece(s, pos, li, a10, li, "}"@);
    lemma_p_lit_inverts(s, pos + a10, "}"@);
    assert((WeaponV {
        key: w.key,
        level: w.level,
        ascension: w.ascension,
        refinement: w.refinement,
        location: w.location,
    }) =~= w);
}

/// One character object, read back.
pub open spec fn p_character(s: Seq<char>, pos: int) -> Option<(CharacterV, int)> {
    match p_lit(s, pos, "{\"key\":"@) {
        None => None,
        Some(p1) => match p_qstr(s, p1) {
            None => None,
            Some(kp) => match p_lit(s, kp.1, ",\"level\":"@) {
                None => None,
                Some(p3) => match p_u8(s, p3) {
                    None => None,
                    Some(lv) => match p_lit(s, lv.1, ",\"constellation\":"@) {
                        None => None,
                        Some(p5) => match p_u8(s, p5) {
                            None => None,
                            Some(cn) => match p_lit(s, cn.1, ",\"ascension\":"@) {
                                None => None,
                                Some(p7) => match p_u8(s, p7) {
                                    None => None,
                                    Some(an) => match p_lit(s, an.1, ",\"talent\":{\"auto\":"@) {
                                        None => None,
                                        Some(p9) => match p_u8(s, p9) {
                                            None => None,
                                            Some(au) => match p_lit(s, au.1, ",\"skill\":"@) {
                                                None => None,
                                                Some(p11) => match p_u8(s, p11) {
                                                    None => None,
                                                    Some(sk) => match p_lit(
                                                        s,
                                                        sk.1,
                                                        ",\"burst\":"@,
                                                    ) {
                                                        None => None,
                                                        Some(p13) => match p_u8(s, p13) {
                                                            None => None,
                                                            Some(bu) => match p_lit(
                                                                s,
                                                                bu.1,
                                                                "}}"@,
                                                            ) {
                                                                None => None,
                                                                Some(p15) => Some(
                                                                    (
                                                                        CharacterV {
                                                                            key: kp.0,
                                                                            level: lv.0,
                                                                            constellation: cn.0,
                                                                            ascension: an.0,
                                                                            talent: GoodTalents {
                                                                                auto: au.0,
                                                                                skill: sk.0,
                                                                                burst: bu.0,
                                                                            },
                                                                        },
                                                                        p15,
                                                                    ),
                                                                ),
                                                            },
                                                        },
                                                    },
                                                },
                                            },
                                        },
                                    },
                                },
                            },
                        },
                    },
                },
            },
        },
    }
}

#[verifier::rlimit(100)]
#[verifier::spinoff_prover]
proof fn lemma_p_character_inverts(s: Seq<char>, pos: int, c: CharacterV)
    requires
        character_ok(c),
        0 <= pos,
        pos + emit_character(c).len() <= s.len(),
        s.subrange(pos, pos + emit_character(c).len()) == emit_character(c),
    ensures
        p_character(s, pos) == Some((c, pos + emit_character(c).len())),
{
    reveal_strlit(",\"constellation\":");
    reveal_strlit(",\"ascension\":");
    reveal_strlit(",\"talent\":{\"auto\":");
    reveal_strlit(",\"skill\":");
    reveal_strlit(",\"burst\":");
    reveal_strlit("}}");
    let e = emit_character(c);
    let l1 = "{\"key\":"@.len() as int;
    let l2 = ",\"level\":"@.len() as int;
    let l3 = ",\"constellation\":"@.len() as int;
    let l4 = ",\"ascension\":"@.len() as int;
    let l5 = ",\"talent\":{\"auto\":"@.len() as int;
    let l6 = ",\"skill\":"@.len() as int;
    let l7 = ",\"burst\":"@.len() as int;
    let kl = c.key.len() as int;
    let d1 = emit_u8(c.level).len() as int;
    let d2 = emit_u8(c.constellation).len() as int;
    let d3 = emit_u8(c.ascension).len() as int;
    let d4 = emit_u8(c.talent.auto).len() as int;
    let d5 = emit_u8(c.talent.skill).len() as int;
    let d6 = emit_u8(c.talent.burst).len() as int;
    let li = e.len() as int;
    assert(li == l1 + (kl + 2) + l2 + d1 + l3 + d2 + l4 + d3 + l5 + d4 + l6 + d5 + l7 + d6 + 2);
    let a1 = l1;
    let a2 = a1 + kl + 2;
    let a3 = a2 + l2;
    let a4 = a3 + d1;
    let a5 = a4 + l3;
    let a6 = a5 + d2;
    let a7 = a6 + l4;
    let a8 = a7 + d3;
    let a9 = a8 + l5;
    let a10 = a9 + d4;
    let a11 = a10 + l6;
    let a12 = a11 + d5;
    let a13 = a12 + l7;
    let a14 = a13 + d6;
    assert(e.subrange(0, a1) =~= "{\"key\":"@);
    lemma_piece(s, pos, li, 0, a1, "{\"key\":"@);
    lemma_p_lit_inverts(s, pos, "{\"key\":"@);
    assert(e.subrange(a1, a2) =~= emit_qstr(c.key));
    lemma_piece(s, pos, li, a1, a2, emit_qstr(c.key));
    lemma_p_qstr_inverts(s, pos + a1, c.key);
    assert(e.subrange(a2, a3) =~= ",\"level\":"@);
    lemma_piece(s, pos, li, a2, a3, ",\"level\":"@);
    lemma_p_lit_inverts(s, pos + a2, ",\"level\":"@);
    assert(e.subrange(a3, a4) =~= emit_u8(c.level));
    lemma_piece(s, pos, li, a3, a4, emit_u8(c.level));
    assert(s[pos + a4] == ',') by {
        assert(e[a4] == ',');
        assert(s.subrange(pos, pos + li)[a4] == s[pos + a4]);
    }
    lemma_p_u8_inverts(s, pos + a3, c.level);
    assert(e.subrange(a4, a5) =~= ",\"constellation\":"@);
    lemma_piece(s, pos, li, a4, a5, ",\"constellation\":"@);
    lemma_p_lit_inverts(s, pos + a4, ",\"constellation\":"@);
    assert(e.subrange(a5, a6) =~= emit_u8(c.constellation));
    lemma_piece(s, pos, li, a5, a6, emit_u8(c.constellation));
    assert(s[pos + a6] == ',') by {
        assert(e[a6] == ',');
        assert(s.subrange(pos, pos + li)[a6] == s[pos + a6]);
    }
    lemma_p_u8_inverts(s, pos + a5, c.constellation);
    assert(e.subrange(a6, a7) =~= ",\"ascension\":"@);
    lemma_piece(s, pos, li, a6, a7, ",\"ascension\":"@);
    lemma_p_lit_inverts(s, pos + a6, ",\"ascension\":"@);
    assert(e.subrange(a7, a8) =~= emit_u8(c.ascension));
    lemma_piece(s, pos, li, a7, a8, emit_u8(c.ascension));
    assert(s[pos + a8] == ',') by {
        assert(e[a8] == ',');
        assert(s.subrange(pos, pos + li)[a8] == s[pos + a8]);
    }
    lemma_p_u8_inverts(s, pos + a7, c.ascension);
    assert(e.subrange(a8, a9) =~= ",\"talent\":{\"auto\":"@);
    lemma_piece(s, pos, li, a8, a9, ",\"talent\":{\"auto\":"@);
    lemma_p_lit_inverts(s, pos + a8, ",\"talent\":{\"auto\":"@);
    assert(e.subrange(a9, a10) =~= emit_u8(c.talent.auto));
    lemma_piece(s, pos, li, a9, a10, emit_u8(c.talent.auto));
    assert(s[pos + a10] == ',') by {
        assert(e[a10] == ',');
        assert(s.subrange(pos, pos + li)[a10] == s[pos + a10]);
    }
    lemma_p_u8_inverts(s, pos + a9, c.talent.auto);
    assert(e.subrange(a10, a11) =~= ",\"skill\":"@);
    lemma_piece(s, pos, li, a10, a11, ",\"skill\":"@);
    lemma_p_lit_inverts(s, pos + a10, ",\"skill\":"@);
    assert(e.subrange(a11, a12) =~= emit_u8(c.talent.skill));
    lemma_piece(s, pos, li, a11, a12, emit_u8(c.talent.skill));
    assert(s[pos + a12] == ',') by {
        assert(e[a12] == ',');
        assert(s.subrange(pos, pos + li)[a12] == s[pos + a12]);
    }
    lemma_p_u8_inverts(s, pos + a11, c.talent.skill);
    assert(e.subrange(a12, a13) =~= ",\"burst\":"@);
    lemma_piece(s, pos, li, a12, a13, ",\"burst\":"@);
    lemma_p_lit_inverts(s, pos + a12, ",\"burst\":"@);
    assert(e.subrange(a13, a14) =~= emit_u8(c.talent.burst));
    lemma_piece(s, pos, li, a13, a14, emit_u8(c.talent.burst));
    assert(s[pos + a14] == '}') by {
        assert(e[a14] == '}');
        assert(s.subrange(pos, pos + li)[a14] == s[pos + a14]);
    }
    lemma_p_u8_inverts(s, pos + a13, c.talent.burst);
    assert(e.subrange(a14, li) =~= "}}"@);
    lemma_piece(s, pos, li, a14, li, "}}"@);
    lemma_p_lit_inverts(s, pos + a14, "}}"@);
    assert((CharacterV {
        key: c.key,
        level: c.level,
        constellation: c.constellation,
        ascension: c.ascension,
        talent: GoodTalents { auto: c.talent.auto, skill: c.talent.skill, burst: c.talent.burst },
    }) =~= c);
}

/// Comma-separated sub-stat objects, read back; stops before the closing
/// bracket.
pub open spec fn p_substat_items(s: Seq<char>, pos: int) -> Option<(Seq<SubstatV>, int)>
    decreases s.len() - pos when 0 <= pos <= s.len()
{
    match p_substat(s, pos) {
        None => None,
        Some(vp) => if !(pos < vp.1 <= s.len()) {
            None
        } else if vp.1 < s.len() && s[vp.1] == ',' {
            match p_substat_items(s, vp.1 + 1) {
                None => None,
                Some(rp) => Some((seq![vp.0] + rp.0, rp.1)),
            }
        } else {
            Some((seq![vp.0], vp.1))
        },
    }
}

#[verifier::rlimit(100)]
#[verifier::spinoff_prover]
proof fn lemma_p_substat_items_inverts(s: Seq<char>, pos: int, items: Seq<SubstatV>)
    requires
        items.len() >= 1,
        forall|k: int| 0 <= k < items.len() ==> substat_ok(#[trigger] items[k]),
        0 <= pos,
        pos + emit_substat_items(items).len() < s.len(),
        s.subrange(pos, pos + emit_substat_items(items).len()) == emit_substat_items(items),
        s[pos + emit_substat_items(items).len()] == ']',
    ensures
        p_substat_items(s, pos) == Some((items, pos + emit_substat_items(items).len())),
    decreases items.len(),
{
    let e = emit_substat_items(items);
    let li = e.len() as int;
    if items.len() == 1 {
        assert(e == emit_substat(items[0]));
        lemma_p_substat_inverts(s, pos, items[0]);
        assert(li >= 1);
        assert(seq![items[0]] =~= items);
    } else {
        reveal_strlit(",");
        let e0 = emit_substat(items[0]);
        let l0 = e0.len() as int;
        let rest = emit_substat_items(items.drop_first());
        assert(e == e0 + ","@ + rest);
        assert(li == l0 + 1 + rest.len());
        assert(e.subrange(0, l0) =~= e0);
        lemma_piece(s, pos, li, 0, l0, e0);
        lemma_p_substat_inverts(s, pos, items[0]);
        assert(s[pos + l0] == ',') by {
            assert(e[l0] == ',');
            assert(s.subrange(pos, pos + li)[l0] == s[pos + l0]);
        }
        assert(e.subrange(l0 + 1, li) =~= rest);
        lemma_piece(s, pos, li, l0 + 1, li, rest);
        assert(forall|k: int|
            0 <= k < items.drop_first().len() ==> substat_ok(#[trigger] items.drop_first()[k]));
        lemma_p_substat_items_inverts(s, pos + l0 + 1, items.drop_first());
        assert(seq![items[0]] + items.drop_first() =~= items);
    }
}

/// A sub-stat array, read back.
pub open spec fn p_substat_list(s: Seq<char>, pos: int) -> Option<(Seq<SubstatV>, int)> {
    match p_lit(s, pos, "["@) {
        None => None,
        Some(p) => match p_lit(s, p, "]"@) {
            Some(en) => Some((Seq::<SubstatV>::empty(), en)),
            None => match p_substat_items(s, p) {
                None => None,
                Some(ip) => match p_lit(s, ip.1, "]"@) {
                    None => None,
                    Some(en) => Some((ip.0, en)),
                },
            },
        },
    }
}

#[verifier::rlimit(100)]
#[verifier::spinoff_prover]
proof fn lemma_p_substat_list_inverts(s: Seq<char>, pos: int, items: Seq<SubstatV>)
    requires
        forall|k: int| 0 <= k < items.len() ==> substat_ok(#[trigger] items[k]),
        0 <= pos,
        pos + emit_substat_list(items).len() <= s.len(),
        s.subrange(pos, pos + emit_substat_list(items).len()) == emit_substat_list(items),
    ensures
        p_substat_list(s, pos) == Some((items, pos + emit_substat_list(items).len())),
{
    reveal_strlit("[");
    reveal_strlit("]");
    reveal_strlit("{\"key\":");
    let e = emit_substat_list(items);
    let li = e.len() as int;
    let m = emit_substat_items(items).len() as int;
    assert(li == 1 + m + 1);
    assert(e.subrange(0, 1) =~= "["@);
    lemma_piece(s, pos, li, 0, 1, "["@);
    lemma_p_lit_inverts(s, pos, "["@);
    if items.len() == 0 {
        assert(m == 0);
        assert(e.subrange(1, 2) =~= "]"@);
        lemma_piece(s, pos, li, 1, 2, "]"@);
        lemma_p_lit_inverts(s, pos + 1, "]"@);
        assert(Seq::<SubstatV>::empty() =~= items);
    } else {
        assert(s[pos + 1] == '{') by {
            assert(emit_substat(items[0])[0] == '{');
            assert(emit_substat_items(items)[0] == emit_substat(items[0])[0]);
            assert(e[1] == emit_substat_items(items)[0]);
            assert(s.subrange(pos, pos + li)[1] == s[pos + 1]);
        }
        assert(p_lit(s, pos + 1, "]"@) is None) by {
            if p_lit(s, pos + 1, "]"@) is Some {
                assert(s.subrange(pos + 1, pos + 2) == "]"@);
                assert(s.subrange(pos + 1, pos + 2)[0] == s[pos + 1]);
            }
        }
        assert(e.subrange(1, 1 + m) =~= emit_substat_items(items));
        lemma_piece(s, pos, li, 1, 1 + m, emit_substat_items(items));
        assert(s[pos + 1 + m] == ']') by {
            assert(e[1 + m] == ']');
            assert(s.subrange(pos, pos + li)[1 + m] == s[pos + 1 + m]);
        }
        lemma_p_substat_items_inverts(s, pos + 1, items);
        assert(e.subrange(1 + m, li) =~= "]"@);
        lemma_piece(s, pos, li, 1 + m, li, "]"@);
        lemma_p_lit_inverts(s, pos + 1 + m, "]"@);
    }
}

/// One artifact object, read back.
pub open spec fn p_artifact(s: Seq<char>, pos: int) -> Option<(ArtifactV, int)> {
    match p_lit(s, pos, "{\"setKey\":"@) {
        None => None,
        Some(p1) => match p_qstr(s, p1) {
            None => None,
            Some(se) => match p_lit(s, se.1, ",\"slotKey\":"@) {
                None => None,
                Some(p3) => match p_qstr(s, p3) {
                    None => None,
                    Some(sl) => match p_lit(s, sl.1, ",\"level\":"@) {
                        None => None,
                        Some(p5) => match p_u8(s, p5) {
                            None => None,
                            Some(lv) => match p_lit(s, lv.1, ",\"rarity\":"@) {
                                None => None,
                                Some(p7) => match p_u8(s, p7) {
                                    None => None,
                                    Some(ra) => match p_lit(s, ra.1, ",\"mainStatKey\":"@) {
                                        None => None,
                                        Some(p9) => match p_qstr(s, p9) {
                                            None => None,
                                            Some(ms) => match p_lit(s, ms.1, ",\"location\":"@) {
                                                None => None,
                                                Some(p11) => match p_qstr(s, p11) {
                                                    None => None,
                                                    Some(lo) => match p_lit(
                                                        s,
                                                        lo.1,
                                                        ",\"substats\":"@,
                                                    ) {
                                                        None => None,
                                                        Some(p13) => match p_substat_list(s, p13) {
                                                            None => None,
                                                            Some(su) => match p_lit(s, su.1, "}"@) {
                                                                None => None,
                                                                Some(p15) => Some(
                                                                    (
                                                                        ArtifactV {
                                                                            set_key: se.0,
                                                                            slot_key: sl.0,
                                                                            level: lv.0,
                                                                            rarity: ra.0,
                                                                            main_stat_key: ms.0,
                                                                            location: lo.0,
                                                                            substats: su.0,
                                                                        },
                                                                        p15,
                                                                    ),
                                                                ),
                                                            },
                                                        },
                                                    },
                                                },
                                            },
                                        },
                                    },
                                },
                            },
                        },
                    },
                },
            },
        },
    }
}

#[verifier::rlimit(100)]
#[verifier::spinoff_prover]
proof fn lemma_p_artifact_inverts(s: Seq<char>, pos: int, a: ArtifactV)
    requires
        artifact_ok(a),
        0 <= pos,
        pos + emit_artifact(a).len() <= s.len(),
        s.subrange(pos, pos + emit_artifact(a).len()) == emit_artifact(a),
    ensures
        p_artifact(s, pos) == Some((a, pos + emit_artifact(a).len())),
{
    reveal_strlit(",\"rarity\":");
    reveal_strlit(",\"mainStatKey\":");
    reveal_strlit("}");
    let e = emit_artifact(a);
    let l1 = "{\"setKey\":"@.len() as int;
    let l2 = ",\"slotKey\":"@.len() as int;
    let l3 = ",\"level\":"@.len() as int;
    let l4 = ",\"rarity\":"@.len() as int;
    let l5 = ",\"mainStatKey\":"@.len() as int;
    let l6 = ",\"location\":"@.len() as int;
    let l7 = ",\"substats\":"@.len() as int;
    let sk = a.set_key.len() as int;
    let sl = a.slot_key.len() as int;
    let d1 = emit_u8(a.level).len() as int;
    let d2 = emit_u8(a.rarity).len() as int;
    let mk = a.main_stat_key.len() as int;
    let lo = a.location.len() as int;
    let sb = emit_substat_list(a.substats).len() as int;
    let li = e.len() as int;
    assert(li == l1 + (sk + 2) + l2 + (sl + 2) + l3 + d1 + l4 + d2 + l5 + (mk + 2) + l6 + (lo + 2)
        + l7 + sb + 1);
    let a1 = l1;
    let a2 = a1 + sk + 2;
    let a3 = a2 + l2;
    let a4 = a3 + sl + 2;
    let a5 = a4 + l3;
    let a6 = a5 + d1;
    let a7 = a6 + l4;
    let a8 = a7 + d2;
    let a9 = a8 + l5;
    let a10 = a9 + mk + 2;
    let a11 = a10 + l6;
    let a12 = a11 + lo + 2;
    let a13 = a12 + l7;
    let a14 = a13 + sb;
    assert(e.subrange(0, a1) =~= "{\"setKey\":"@);
    lemma_piece(s, pos, li, 0, a1, "{\"setKey\":"@);
    lemma_p_lit_inverts(s, pos, "{\"setKey\":"@);
    assert(e.subrange(a1, a2) =~= emit_qstr(a.set_key));
    lemma_piece(s, pos, li, a1, a2, emit_qstr(a.set_key));
    lemma_p_qstr_inverts(s, pos + a1, a.set_key);
    assert(e.subrange(a2, a3) =~= ",\"slotKey\":"@);
    lemma_piece(s, pos, li, a2, a3, ",\"slotKey\":"@);
    lemma_p_lit_inverts(s, pos + a2, ",\"slotKey\":"@);
    assert(e.subrange(a3, a4) =~= emit_qstr(a.slot_key));
    lemma_piece(s, pos, li, a3, a4, emit_qstr(a.slot_key));
    lemma_p_qstr_inverts(s, pos + a3, a.slot_key);
    assert(e.subrange(a4, a5) =~= ",\"level\":"@);
    lemma_piece(s, pos, li, a4, a5, ",\"level\":"@);
    lemma_p_lit_inverts(s, pos + a4, ",\"level\":"@);
    assert(e.subrange(a5, a6) =~= emit_u8(a.level));
    lemma_piece(s, pos, li, a5, a6, emit_u8(a.level));
    assert(s[pos + a6] == ',') by {
        assert(e[a6] == ',');
        assert(s.subrange(pos, pos + li)[a6] == s[pos + a6]);
    }
    lemma_p_u8_inverts(s, pos + a5, a.level);
    assert(e.subrange(a6, a7) =~= ",\"rarity\":"@);
    lemma_piece(s, pos, li, a6, a7, ",\"rarity\":"@);
    lemma_p_lit_inverts(s, pos + a6, ",\"rarity\":"@);
    assert(e.subrange(a7, a8) =~= emit_u8(a.rarity));
    lemma_piece(s, pos, li, a7, a8, emit_u8(a.rarity));
    assert(s[pos + a8] == ',') by {
        assert(e[a8] == ',');
        assert(s.subrange(pos, pos + li)[a8] == s[pos + a8]);
    }
    lemma_p_u8_inverts(s, pos + a7, a.rarity);
    assert(e.subrange(a8, a9) =~= ",\"mainStatKey\":"@);
    lemma_piece(s, pos, li, a8, a9, ",\"mainStatKey\":"@);
    lemma_p_lit_inverts(s, pos + a8, ",\"mainStatKey\":"@);
    assert(e.subrange(a9, a10) =~= emit_qstr(a.main_stat_key));
    lemma_piece(s, pos, li, a9, a10, emit_qstr(a.main_stat_key));
    lemma_p_qstr_inverts(s, pos + a9, a.main_stat_key);
    assert(e.subrange(a10, a11) =~= ",\"location\":"@);
    lemma_piece(s, pos, li, a10, a11, ",\"location\":"@);
    lemma_p_lit_inverts(s, pos + a10, ",\"location\":"@);
    assert(e.subrange(a11, a12) =~= emit_qstr(a.location));
    lemma_piece(s, pos, li, a11, a12, emit_qstr(a.location));
    lemma_p_qstr_inverts(s, pos + a11, a.location);
    assert(e.subrange(a12, a13) =~= ",\"substats\":"@);
    lemma_piece(s, pos, li, a12, a13, ",\"substats\":"@);
    lemma_p_lit_inverts(s, pos + a12, ",\"substats\":"@);
    assert(e.subrange(a13, a14) =~= emit_substat_list(a.substats));
    lemma_piece(s, pos, li, a13, a14, emit_substat_list(a.substats));
    lemma_p_substat_list_inverts(s, pos + a13, a.substats);
    assert(e.subrange(a14, li) =~= "}"@);
    lemma_piece(s, pos, li, a14, li, "}"@);
    lemma_p_lit_inverts(s, pos + a14, "}"@);
    assert((ArtifactV {
        set_key: a.set_key,
        slot_key: a.slot_key,
        level: a.level,
        rarity: a.rarity,
        main_stat_key: a.main_stat_key,
        location: a.location,
        substats: a.substats,
    }) =~= a);
}


/// Comma-separated character objects, read back; stops before the closing
/// bracket.
pub open spec fn p_character_items(s: Seq<char>, pos: int) -> Option<(Seq<CharacterV>, int)>
    decreases s.len() - pos when 0 <= pos <= s.len()
{
    match p_character(s, pos) {
        None => None,
        Some(vp) => if !(pos < vp.1 <= s.len()) {
            None
        } else if vp.1 < s.len() && s[vp.1] == ',' {
            match p_character_items(s, vp.1 + 1) {
                None => None,
                Some(rp) => Some((seq![vp.0] + rp.0, rp.1)),
            }
        } else {
            Some((seq![vp.0], vp.1))
        },
    }
}

#[verifier::rlimit(100)]
#[verifier::spinoff_prover]
proof fn lemma_p_character_items_inverts(s: Seq<char>, pos: int, items: Seq<CharacterV>)
    requires
        items.len() >= 1,
        forall|k: int| 0 <= k < items.len() ==> character_ok(#[trigger] items[k]),
        0 <= pos,
        pos + emit_character_items(items).len() < s.len(),
        s.subrange(pos, pos + emit_character_items(items).len()) == emit_character_items(items),
        s[pos + emit_character_items(items).len()] == ']',
    ensures
        p_character_items(s, pos) == Some((items, pos + emit_character_items(items).len())),
    decreases items.len(),
{
    let e = emit_character_items(items);
    let li = e.len() as int;
    if items.len() == 1 {
        assert(e == emit_character(items[0]));
        lemma_p_character_inverts(s, pos, items[0]);
        assert(li >= 1);
        assert(seq![items[0]] =~= items);
    } else {
        reveal_strlit(",");
        let e0 = emit_character(items[0]);
        let l0 = e0.len() as int;
        let rest = emit_character_items(items.drop_first());
        assert(e == e0 + ","@ + rest);
        assert(li == l0 + 1 + rest.len());
        assert(e.subrange(0, l0) =~= e0);
        lemma_piece(s, pos, li, 0, l0, e0);
        lemma_p_character_inverts(s, pos, items[0]);
        assert(s[pos + l0] == ',') by {
            assert(e[l0] == ',');
            assert(s.subrange(pos, pos + li)[l0] == s[pos + l0]);
        }
        assert(e.subrange(l0 + 1, li) =~= rest);
        lemma_piece(s, pos, li, l0 + 1, li, rest);
        assert(forall|k: int|
            0 <= k < items.drop_first().len() ==> character_ok(#[trigger] items.drop_first()[k]));
        lemma_p_character_items_inverts(s, pos + l0 + 1, items.drop_first());
        assert(seq![items[0]] + items.drop_first() =~= items);
    }
}

/// A character array, read back.
pub open spec fn p_character_list(s: Seq<char>, pos: int) -> Option<(Seq<CharacterV>, int)> {
    match p_lit(s, pos, "["@) {
        None => None,
        Some(p) => match p_lit(s, p, "]"@) {
            Some(en) => Some((Seq::<CharacterV>::empty(), en)),
            None => match p_character_items(s, p) {
                None => None,
                Some(ip) => match p_lit(s, ip.1, "]"@) {
                    None => None,
                    Some(en) => Some((ip.0, en)),
                },
            },
        },
    }
}

#[verifier::rlimit(100)]
#[verifier::spinoff_prover]
proof fn lemma_p_character_list_inverts(s: Seq<char>, pos: int, items: Seq<CharacterV>)
    requires
        forall|k: int| 0 <= k < items.len() ==> character_ok(#[trigger] items[k]),
        0 <= pos,
        pos + ("["@ + emit_character_items(items) + "]"@).len() <= s.len(),
        s.subrange(pos, pos + ("["@ + emit_character_items(items) + "]"@).len()) == "["@
            + emit_character_items(items) + "]"@,
    ensures
        p_character_list(s, pos) == Some(
            (items, pos + ("["@ + emit_character_items(items) + "]"@).len()),
        ),
{
    reveal_strlit("[");
    reveal_strlit("]");
    reveal_strlit("{\"key\":");
    let e = "["@ + emit_character_items(items) + "]"@;
    let li = e.len() as int;
    let m = emit_character_items(items).len() as int;
    assert(li == 1 + m + 1);
    assert(e.subrange(0, 1) =~= "["@);
    lemma_piece(s, pos, li, 0, 1, "["@);
    lemma_p_lit_inverts(s, pos, "["@);
    if items.len() == 0 {
        assert(m == 0);
        assert(e.subrange(1, 2) =~= "]"@);
        lemma_piece(s, pos, li, 1, 2, "]"@);
        lemma_p_lit_inverts(s, pos + 1, "]"@);
        assert(Seq::<CharacterV>::empty() =~= items);
    } else {
        assert(s[pos + 1] == '{') by {
            assert(emit_character(items[0])[0] == '{');
            assert(emit_character_items(items)[0] == emit_character(items[0])[0]);
            assert(e[1] == emit_character_items(items)[0]);
            assert(s.subrange(pos, pos + li)[1] == s[pos + 1]);
        }
        assert(p_lit(s, pos + 1, "]"@) is None) by {
            if p_lit(s, pos + 1, "]"@) is Some {
                assert(s.subrange(pos + 1, pos + 2) == "]"@);
                assert(s.subrange(pos + 1, pos + 2)[0] == s[pos + 1]);
            }
        }
        assert(e.subrange(1, 1 + m) =~= emit_character_items(items));
        lemma_piece(s, pos, li, 1, 1 + m, emit_character_items(items));
        assert(s[pos + 1 + m] == ']') by {
            assert(e[1 + m] == ']');
            assert(s.subrange(pos, pos + li)[1 + m] == s[pos + 1 + m]);
        }
        lemma_p_character_items_inverts(s, pos + 1, items);
        assert(e.subrange(1 + m, li) =~= "]"@);
        lemma_piece(s, pos, li, 1 + m, li, "]"@);
        lemma_p_lit_inverts(s, pos + 1 + m, "]"@);
    }
}


/// Comma-separated artifact objects, read back; stops before the closing
/// bracket.
pub open spec fn p_artifact_items(s: Seq<char>, pos: int) -> Option<(Seq<ArtifactV>, int)>
    decreases s.len() - pos when 0 <= pos <= s.len()
{
    match p_artifact(s, pos) {
        None => None,
        Some(vp) => if !(pos < vp.1 <= s.len()) {
            None
        } else if vp.1 < s.len() && s[vp.1] == ',' {
            match p_artifact_items(s, vp.1 + 1) {
                None => None,
                Some(rp) => Some((seq![vp.0] + rp.0, rp.1)),
            }
        } else {
            Some((seq![vp.0], vp.1))
        },
    }
}

#[verifier::rlimit(100)]
#[verifier::spinoff_prover]
proof fn lemma_p_artifact_items_inverts(s: Seq<char>, pos: int, items: Seq<ArtifactV>)
    requires
        items.len() >= 1,
        forall|k: int| 0 <= k < items.len() ==> artifact_ok(#[trigger] items[k]),
        0 <= pos,
        pos + emit_artifact_items(items).len() < s.len(),
        s.subrange(pos, pos + emit_artifact_items(items).len()) == emit_artifact_items(items),
        s[pos + emit_artifact_items(items).len()] == ']',
    ensures
        p_artifact_items(s, pos) == Some((items, pos + emit_artifact_items(items).len())),
    decreases items.len(),
{
    let e = emit_artifact_items(items);
    let li = e.len() as int;
    if items.len() == 1 {
        assert(e == emit_artifact(items[0]));
        lemma_p_artifact_inverts(s, pos, items[0]);
        assert(li >= 1);
        assert(seq![items[0]] =~= items);
    } else {
        reveal_strlit(",");
        let e0 = emit_artifact(items[0]);
        let l0 = e0.len() as int;
        let rest = emit_artifact_items(items.drop_first());
        assert(e == e0 + ","@ + rest);
        assert(li == l0 + 1 + rest.len());
        assert(e.subrange(0, l0) =~= e0);
        lemma_piece(s, pos, li, 0, l0, e0);
        lemma_p_artifact_inverts(s, pos, items[0]);
        assert(s[pos + l0] == ',') by {
            assert(e[l0] == ',');
            assert(s.subrange(pos, pos + li)[l0] == s[pos + l0]);
        }
        assert(e.subrange(l0 + 1, li) =~= rest);
        lemma_piece(s, pos, li, l0 + 1, li, rest);
        assert(forall|k: int|
            0 <= k < items.drop_first().len() ==> artifact_ok(#[trigger] items.drop_first()[k]));
        lemma_p_artifact_items_inverts(s, pos + l0 + 1, items.drop_first());
        assert(seq![items[0]] + items.drop_first() =~= items);
    }
}

/// A artifact array, read back.
pub open spec fn p_artifact_list(s: Seq<char>, pos: int) -> Option<(Seq<ArtifactV>, int)> {
    match p_lit(s, pos, "["@) {
        None => None,
        Some(p) => match p_lit(s, p, "]"@) {
            Some(en) => Some((Seq::<ArtifactV>::empty(), en)),
            None => match p_artifact_items(s, p) {
                None => None,
                Some(ip) => match p_lit(s, ip.1, "]"@) {
                    None => None,
                    Some(en) => Some((ip.0, en)),
                },
            },
        },
    }
}

#[verifier::rlimit(100)]
#[verifier::spinoff_prover]
proof fn lemma_p_artifact_list_inverts(s: Seq<char>, pos: int, items: Seq<ArtifactV>)
    requires
        forall|k: int| 0 <= k < items.len() ==> artifact_ok(#[trigger] items[k]),
        0 <= pos,
        pos + ("["@ + emit_artifact_items(items) + "]"@).len() <= s.len(),
        s.subrange(pos, pos + ("["@ + emit_artifact_items(items) + "]"@).len()) == "["@
            + emit_artifact_items(items) + "]"@,
    ensures
        p_artifact_list(s, pos) == Some(
            (items, pos + ("["@ + emit_artifact_items(items) + "]"@).len()),
        ),
{
    reveal_strlit("[");
    reveal_strlit("]");
    reveal_strlit("{\"setKey\":");
    let e = "["@ + emit_artifact_items(items) + "]"@;
    let li = e.len() as int;
    let m = emit_artifact_items(items).len() as int;
    assert(li == 1 + m + 1);
    assert(e.subrange(0, 1) =~= "["@);
    lemma_piece(s, pos, li, 0, 1, "["@);
    lemma_p_lit_inverts(s, pos, "["@);
    if items.len() == 0 {
        assert(m == 0);
        assert(e.subrange(1, 2) =~= "]"@);
        lemma_piece(s, pos, li, 1, 2, "]"@);
        lemma_p_lit_inverts(s, pos + 1, "]"@);
        assert(Seq::<ArtifactV>::empty() =~= items);
    } else {
        assert(s[pos + 1] == '{') by {
            assert(emit_artifact(items[0])[0] == '{');
            assert(emit_artifact_items(items)[0] == emit_artifact(items[0])[0]);
            assert(e[1] == emit_artifact_items(items)[0]);
            assert(s.subrange(pos, pos + li)[1] == s[pos + 1]);
        }
        assert(p_lit(s, pos + 1, "]"@) is None) by {
            if p_lit(s, pos + 1, "]"@) is Some {
                assert(s.subrange(pos + 1, pos + 2) == "]"@);
                assert(s.subrange(pos + 1, pos + 2)[0] == s[pos + 1]);
            }
        }
        assert(e.subrange(1, 1 + m) =~= emit_artifact_items(items));
        lemma_piece(s, pos, li, 1, 1 + m, emit_artifact_items(items));
        assert(s[pos + 1 + m] == ']') by {
            assert(e[1 + m] == ']');
            assert(s.subrange(pos, pos + li)[1 + m] == s[pos + 1 + m]);
        }
        lemma_p_artifact_items_inverts(s, pos + 1, items);
        assert(e.subrange(1 + m, li) =~= "]"@);
        lemma_piece(s, pos, li, 1 + m, li, "]"@);
        lemma_p_lit_inverts(s, pos + 1 + m, "]"@);
    }
}


/// Comma-separated weapon objects, read back; stops before the closing
/// bracket.
pub open spec fn p_weapon_items(s: Seq<char>, pos: int) -> Option<(Seq<WeaponV>, int)>
    decreases s.len() - pos when 0 <= pos <= s.len()
{
    match p_weapon(s, pos) {
        None => None,
        Some(vp) => if !(pos < vp.1 <= s.len()) {
            None
        } else if vp.1 < s.len() && s[vp.1] == ',' {
            match p_weapon_items(s, vp.1 + 1) {
                None => None,
                Some(rp) => Some((seq![vp.0] + rp.0, rp.1)),
            }
        } else {
            Some((seq![vp.0], vp.1))
        },
    }
}

#[verifier::rlimit(100)]
#[verifier::spinoff_prover]
proof fn lemma_p_weapon_items_inverts(s: Seq<char>, pos: int, items: Seq<WeaponV>)
    requires
        items.len() >= 1,
        forall|k: int| 0 <= k < items.len() ==> weapon_ok(#[trigger] items[k]),
        0 <= pos,
        pos + emit_weapon_items(items).len() < s.len(),
        s.subrange(pos, pos + emit_weapon_items(items).len()) == emit_weapon_items(items),
        s[pos + emit_weapon_items(items).len()] == ']',
    ensures
        p_weapon_items(s, pos) == Some((items, pos + emit_weapon_items(items).len())),
    decreases items.len(),
{
    let e = emit_weapon_items(items);
    let li = e.len() as int;
    if items.len() == 1 {
        assert(e == emit_weapon(items[0]));
        lemma_p_weapon_inverts(s, pos, items[0]);
        assert(li >= 1);
        assert(seq![items[0]] =~= items);
    } else {
        reveal_strlit(",");
        let e0 = emit_weapon(items[0]);
        let l0 = e0.len() as int;
        let rest = emit_weapon_items(items.drop_first());
        assert(e == e0 + ","@ + rest);
        assert(li == l0 + 1 + rest.len());
        assert(e.subrange(0, l0) =~= e0);
        lemma_piece(s, pos, li, 0, l0, e0);
        lemma_p_weapon_inverts(s, pos, items[0]);
        assert(s[pos + l0] == ',') by {
            assert(e[l0] == ',');
            assert(s.subrange(pos, pos + li)[l0] == s[pos + l0]);
        }
        assert(e.subrange(l0 + 1, li) =~= rest);
        lemma_piece(s, pos, li, l0 + 1, li, rest);
        assert(forall|k: int|
            0 <= k < items.drop_first().len() ==> weapon_ok(#[trigger] items.drop_first()[k]));
        lemma_p_weapon_items_inverts(s, pos + l0 + 1, items.drop_first());
        assert(seq![items[0]] + items.drop_first() =~= items);
    }
}

/// A weapon array, read back.
pub open spec fn p_weapon_list(s: Seq<char>, pos: int) -> Option<(Seq<WeaponV>, int)> {
    match p_lit(s, pos, "["@) {
        None => None,
        Some(p) => match p_lit(s, p, "]"@) {
            Some(en) => Some((Seq::<WeaponV>::empty(), en)),
            None => match p_weapon_items(s, p) {
                None => None,
                Some(ip) => match p_lit(s, ip.1, "]"@) {
                    None => None,
                    Some(en) => Some((ip.0, en)),
                },
            },
        },
    }
}

#[verifier::rlimit(100)]
#[verifier::spinoff_prover]
proof fn lemma_p_weapon_list_inverts(s: Seq<char>, pos: int, items: Seq<WeaponV>)
    requires
        forall|k: int| 0 <= k < items.len() ==> weapon_ok(#[trigger] items[k]),
        0 <= pos,
        pos + ("["@ + emit_weapon_items(items) + "]"@).len() <= s.len(),
        s.subrange(pos, pos + ("["@ + emit_weapon_items(items) + "]"@).len()) == "["@
            + emit_weapon_items(items) + "]"@,
    ensures
        p_weapon_list(s, pos) == Some(
            (items, pos + ("["@ + emit_weapon_items(items) + "]"@).len()),
        ),
{
    reveal_strlit("[");
    reveal_strlit("]");
    reveal_strlit("{\"key\":");
    let e = "["@ + emit_weapon_items(items) + "]"@;
    let li = e.len() as int;
    let m = emit_weapon_items(items).len() as int;
    assert(li == 1 + m + 1);
    assert(e.subrange(0, 1) =~= "["@);
    lemma_piece(s, pos, li, 0, 1, "["@);
    lemma_p_lit_inverts(s, pos, "["@);
    if items.len() == 0 {
        assert(m == 0);
        assert(e.subrange(1, 2) =~= "]"@);
        lemma_piece(s, pos, li, 1, 2, "]"@);
        lemma_p_lit_inverts(s, pos + 1, "]"@);
        assert(Seq::<WeaponV>::empty() =~= items);
    } else {
        assert(s[pos + 1] == '{') by {
            assert(emit_weapon(items[0])[0] == '{');
            assert(emit_weapon_items(items)[0] == emit_weapon(items[0])[0]);
            assert(e[1] == emit_weapon_items(items)[0]);
            assert(s.subrange(pos, pos + li)[1] == s[pos + 1]);
        }
        assert(p_lit(s, pos + 1, "]"@) is None) by {
            if p_lit(s, pos + 1, "]"@) is Some {
                assert(s.subrange(pos + 1, pos + 2) == "]"@);
                assert(s.subrange(pos + 1, pos + 2)[0] == s[pos + 1]);
            }
        }
        assert(e.subrange(1, 1 + m) =~= emit_weapon_items(items));
        lemma_piece(s, pos, li, 1, 1 + m, emit_weapon_items(items));
        assert(s[pos + 1 + m] == ']') by {
            assert(e[1 + m] == ']');
            assert(s.subrange(pos, pos + li)[1 + m] == s[pos + 1 + m]);
        }
        lemma_p_weapon_items_inverts(s, pos + 1, items);
        assert(e.subrange(1 + m, li) =~= "]"@);
        lemma_piece(s, pos, li, 1 + m, li, "]"@);
        lemma_p_lit_inverts(s, pos + 1 + m, "]"@);
    }
}

/// A whole collection document, read back.
pub open spec fn p_doc(s: Seq<char>) -> Option<(crate::good::GoodV, int)> {
    match p_lit(s, 0, "{\"format\":"@) {
        None => None,
        Some(p1) => match p_qstr(s, p1) {
            None => None,
            Some(fm) => match p_lit(s, fm.1, ",\"version\":"@) {
                None => None,
                Some(p3) => match p_u8(s, p3) {
                    None => None,
                    Some(vn) => match p_lit(s, vn.1, ",\"source\":"@) {
                        None => None,
                        Some(p5) => match p_qstr(s, p5) {
                            None => None,
                            Some(sr) => match p_lit(s, sr.1, ",\"characters\":"@) {
                                None => None,
                                Some(p7) => match p_character_list(s, p7) {
                                    None => None,
                                    Some(cs) => match p_lit(s, cs.1, ",\"artifacts\":"@) {
                                        None => None,
                                        Some(p9) => match p_artifact_list(s, p9) {
                                            None => None,
                                            Some(ar) => match p_lit(s, ar.1, ",\"weapons\":"@) {
                                                None => None,
                                                Some(p11) => match p_weapon_list(s, p11) {
                                                    None => None,
                                                    Some(wp) => match p_lit(s, wp.1, "}"@) {
                                                        None => None,
                                                        Some(p13) => Some(
                                                            (
                                                                crate::good::GoodV {
                                                                    format: fm.0,
                                                                    version: vn.0,
                                                                    source: sr.0,
                                                                    characters: cs.0,
                                                                    artifacts: ar.0,
                                                                    weapons: wp.0,
                                                                },
                                                                p13,
                                                            ),
                                                        ),
                                                    },
                                                },
                                            },
                                        },
                                    },
                                },
                            },
                        },
                    },
                },
            },
        },
    }
}

/// The position right after the document's `,"characters":` marker.
pub open spec fn doc_lists_start(g: crate::good::GoodV) -> int {
    emit_doc_header(g).len() as int
}

#[verifier::rlimit(100)]
#[verifier::spinoff_prover]
proof fn lemma_doc_round_trip_header(g: crate::good::GoodV)
    requires
        encodable(g),
    ensures
        ({
            let s = emit_doc(g);
            &&& p_lit(s, 0, "{\"format\":"@) == Some("{\"format\":"@.len() as int)
            &&& p_qstr(s, "{\"format\":"@.len() as int) == Some(
                (g.format, "{\"format\":"@.len() as int + g.format.len() + 2),
            )
            &&& p_lit(s, "{\"format\":"@.len() as int + g.format.len() + 2, ",\"version\":"@)
                == Some(
                "{\"format\":"@.len() as int + g.format.len() + 2 + ",\"version\":"@.len(),
            )
            &&& p_u8(
                s,
                "{\"format\":"@.len() as int + g.format.len() + 2 + ",\"version\":"@.len(),
            ) == Some(
                (
                    g.version,
                    "{\"format\":"@.len() as int + g.format.len() + 2 + ",\"version\":"@.len()
                        + emit_u8(g.version).len(),
                ),
            )
            &&& p_lit(
                s,
                "{\"format\":"@.len() as int + g.format.len() + 2 + ",\"version\":"@.len()
                    + emit_u8(g.version).len(),
                ",\"source\":"@,
            ) == Some(doc_lists_start(g) - ",\"characters\":"@.len() - g.source.len() - 2)
            &&& p_qstr(s, doc_lists_start(g) - ",\"characters\":"@.len() - g.source.len() - 2)
                == Some((g.source, doc_lists_start(g) - ",\"characters\":"@.len()))
            &&& p_lit(s, doc_lists_start(g) - ",\"characters\":"@.len(), ",\"characters\":"@)
                == Some(doc_lists_start(g))
        }),
{
    reveal_strlit(",\"source\":");
    let s = emit_doc(g);
    let li = s.len() as int;
    let h = emit_doc_header(g);
    let hl = h.len() as int;
    assert(s.subrange(0, hl) =~= h);
    let l1 = "{\"format\":"@.len() as int;
    let fm = g.format.len() as int;
    let l2 = ",\"version\":"@.len() as int;
    let dv = emit_u8(g.version).len() as int;
    let l3 = ",\"source\":"@.len() as int;
    let so = g.source.len() as int;
    let a1 = l1;
    let a2 = a1 + fm + 2;
    let a3 = a2 + l2;
    let a4 = a3 + dv;
    let a5 = a4 + l3;
    let a6 = a5 + so + 2;
    assert(hl == a6 + ",\"characters\":"@.len());
    assert(h.subrange(0, a1) =~= "{\"format\":"@);
    lemma_piece(s, 0, hl, 0, a1, "{\"format\":"@);
    lemma_p_lit_inverts(s, 0, "{\"format\":"@);
    assert(h.subrange(a1, a2) =~= emit_qstr(g.format));
    lemma_piece(s, 0, hl, a1, a2, emit_qstr(g.format));
    lemma_p_qstr_inverts(s, a1, g.format);
    assert(h.subrange(a2, a3) =~= ",\"version\":"@);
    lemma_piece(s, 0, hl, a2, a3, ",\"version\":"@);
    lemma_p_lit_inverts(s, a2, ",\"version\":"@);
    assert(h.subrange(a3, a4) =~= emit_u8(g.version));
    lemma_piece(s, 0, hl, a3, a4, emit_u8(g.version));
    assert(s[a4] == ',') by {
        assert(h[a4] == ',');
        assert(s.subrange(0, hl)[a4] == s[a4]);
    }
    lemma_p_u8_inverts(s, a3, g.version);
    assert(h.subrange(a4, a5) =~= ",\"source\":"@);
    lemma_piece(s, 0, hl, a4, a5, ",\"source\":"@);
    lemma_p_lit_inverts(s, a4, ",\"source\":"@);
    assert(h.subrange(a5, a6) =~= emit_qstr(g.source));
    lemma_piece(s, 0, hl, a5, a6, emit_qstr(g.source));
    lemma_p_qstr_inverts(s, a5, g.source);
    assert(h.subrange(a6, hl) =~= ",\"characters\":"@);
    lemma_piece(s, 0, hl, a6, hl, ",\"characters\":"@);
    lemma_p_lit_inverts(s, a6, ",\"characters\":"@);
}

/// Splitting a concatenation at the seam yields its two parts.
proof fn lemma_concat_parts<A>(a: Seq<A>, b: Seq<A>)
    ensures
        (a + b).subrange(0, a.len() as int) == a,
        (a + b).subrange(a.len() as int, (a + b).len() as int) == b,
{
    assert((a + b).subrange(0, a.len() as int) =~= a);
    assert((a + b).subrange(a.len() as int, (a + b).len() as int) =~= b);
}

/// A window of a window of `s` is a window of `s`.
proof fn lemma_subrange_of_subrange<A>(s: Seq<A>, i: int, j: int, a: int, b: int)
    requires
        0 <= i <= j <= s.len(),
        0 <= a <= b <= j - i,
    ensures
        s.subrange(i, j).subrange(a, b) == s.subrange(i + a, i + b),
{
    assert(s.subrange(i, j).subrange(a, b) =~= s.subrange(i + a, i + b));
}

#[verifier::rlimit(100)]
#[verifier::spinoff_prover]
proof fn lemma_doc_tail_chars(g: crate::good::GoodV)
    requires
        encodable(g),
    ensures
        ({
            let s = emit_doc(g);
            let a7 = doc_lists_start(g);
            let a8 = a7 + 2 + emit_character_items(g.characters).len() as int;
            p_character_list(s, a7) == Some((g.characters, a8))
        }),
{
    reveal_strlit("[");
    reveal_strlit("]");
    reveal_strlit("}");
    let s = emit_doc(g);
    let li = s.len() as int;
    let h = emit_doc_header(g);
    let hl = h.len() as int;
    let t = emit_doc_lists(g);
    let tl = t.len() as int;
    let g1 = "["@ + emit_character_items(g.characters) + "]"@;
    let g2 = ",\"artifacts\":"@ + ("["@ + emit_artifact_items(g.artifacts) + "]"@);
    let g3 = ",\"weapons\":"@ + ("["@ + emit_weapon_items(g.weapons) + "]"@);
    let mc = emit_character_items(g.characters).len() as int;
    let ma = emit_artifact_items(g.artifacts).len() as int;
    let mw = emit_weapon_items(g.weapons).len() as int;
    let l5 = ",\"artifacts\":"@.len() as int;
    let l6 = ",\"weapons\":"@.len() as int;
    let b1 = 2 + mc;
    let b2 = b1 + l5;
    let b3 = b2 + 2 + ma;
    let b4 = b3 + l6;
    let b5 = b4 + 2 + mw;
    assert(s == h + t);
    assert(t == ((g1 + g2) + g3) + "}"@);
    assert(g1.len() == b1);
    assert(g2.len() == l5 + 2 + ma);
    assert(g3.len() == l6 + 2 + mw);
    assert(tl == b5 + 1);
    assert(li == hl + tl);
    lemma_concat_parts(h, t);
    assert(s.subrange(hl, li) == t);
    lemma_concat_parts((g1 + g2) + g3, "}"@);
    assert(t.subrange(0, b5) == (g1 + g2) + g3);
    lemma_concat_parts(g1 + g2, g3);
    lemma_subrange_of_subrange(t, 0, b5, 0, b3);
    assert(t.subrange(0, b3) == g1 + g2);
    lemma_subrange_of_subrange(t, 0, b5, b3, b5);
    assert(t.subrange(b3, b5) == g3);
    lemma_concat_parts(g1, g2);
    lemma_subrange_of_subrange(t, 0, b3, 0, b1);
    assert(t.subrange(0, b1) == g1);
    lemma_subrange_of_subrange(t, 0, b3, b1, b3);
    assert(t.subrange(b1, b3) == g2);

    lemma_subrange_of_subrange(s, hl, li, 0, b1);
    assert(s.subrange(hl, hl + b1) == g1);
    lemma_p_character_list_inverts(s, hl, g.characters);
}

#[verifier::rlimit(100)]
#[verifier::spinoff_prover]
proof fn lemma_doc_tail_lit_arts(g: crate::good::GoodV)
    requires
        encodable(g),
    ensures
        ({
            let s = emit_doc(g);
            let a8 = doc_lists_start(g) + 2 + emit_character_items(g.characters).len() as int;
            let a9 = a8 + ",\"artifacts\":"@.len() as int;
            p_lit(s, a8, ",\"artifacts\":"@) == Some(a9)
        }),
{
    reveal_strlit("[");
    reveal_strlit("]");
    reveal_strlit("}");
    let s = emit_doc(g);
    let li = s.len() as int;
    let h = emit_doc_header(g);
    let hl = h.len() as int;
    let t = emit_doc_lists(g);
    let tl = t.len() as int;
    let g1 = "["@ + emit_character_items(g.characters) + "]"@;
    let g2 = ",\"artifacts\":"@ + ("["@ + emit_artifact_items(g.artifacts) + "]"@);
    let g3 = ",\"weapons\":"@ + ("["@ + emit_weapon_items(g.weapons) + "]"@);
    let mc = emit_character_items(g.characters).len() as int;
    let ma = emit_artifact_items(g.artifacts).len() as int;
    let mw = emit_weapon_items(g.weapons).len() as int;
    let l5 = ",\"artifacts\":"@.len() as int;
    let l6 = ",\"weapons\":"@.len() as int;
    let b1 = 2 + mc;
    let b2 = b1 + l5;
    let b3 = b2 + 2 + ma;
    let b4 = b3 + l6;
    let b5 = b4 + 2 + mw;
    assert(s == h + t);
    assert(t == ((g1 + g2) + g3) + "}"@);
    assert(g1.len() == b1);
    assert(g2.len() == l5 + 2 + ma);
    assert(g3.len() == l6 + 2 + mw);
    assert(tl == b5 + 1);
    assert(li == hl + tl);
    lemma_concat_parts(h, t);
    assert(s.subrange(hl, li) == t);
    lemma_concat_parts((g1 + g2) + g3, "}"@);
    assert(t.subrange(0, b5) == (g1 + g2) + g3);
    lemma_concat_parts(g1 + g2, g3);
    lemma_subrange_of_subrange(t, 0, b5, 0, b3);
    assert(t.subrange(0, b3) == g1 + g2);
    lemma_subrange_of_subrange(t, 0, b5, b3, b5);
    assert(t.subrange(b3, b5) == g3);
    lemma_concat_parts(g1, g2);
    lemma_subrange_of_subrange(t, 0, b3, 0, b1);
    assert(t.subrange(0, b1) == g1);
    lemma_subrange_of_subrange(t, 0, b3, b1, b3);
    assert(t.subrange(b1, b3) == g2);

    lemma_concat_parts(",\"artifacts\":"@, "["@ + emit_artifact_items(g.artifacts) + "]"@);
    lemma_subrange_of_subrange(t, b1, b3, 0, l5);
    assert(t.subrange(b1, b2) == ",\"artifacts\":"@);
    lemma_subrange_of_subrange(s, hl, li, b1, b2);
    assert(s.subrange(hl + b1, hl + b2) == ",\"artifacts\":"@);
    lemma_p_lit_inverts(s, hl + b1, ",\"artifacts\":"@);
}

#[verifier::rlimit(100)]
#[verifier::spinoff_prover]
proof fn lemma_doc_tail_arts(g: crate::good::GoodV)
    requires
        encodable(g),
    ensures
        ({
            let s = emit_doc(g);
            let a9 = doc_lists_start(g) + 2 + emit_character_items(g.characters).len() as int
                + ",\"artifacts\":"@.len() as int;
            let a10 = a9 + 2 + emit_artifact_items(g.artifacts).len() as int;
            p_artifact_list(s, a9) == Some((g.artifacts, a10))
        }),
{
    reveal_strlit("[");
    reveal_strlit("]");
    reveal_strlit("}");
    let s = emit_doc(g);
    let li = s.len() as int;
    let h = emit_doc_header(g);
    let hl = h.len() as int;
    let t = emit_doc_lists(g);
    let tl = t.len() as int;
    let g1 = "["@ + emit_character_items(g.characters) + "]"@;
    let g2 = ",\"artifacts\":"@ + ("["@ + emit_artifact_items(g.artifacts) + "]"@);
    let g3 = ",\"weapons\":"@ + ("["@ + emit_weapon_items(g.weapons) + "]"@);
    let mc = emit_character_items(g.characters).len() as int;
    let ma = emit_artifact_items(g.artifacts).len() as int;
    let mw = emit_weapon_items(g.weapons).len() as int;
    let l5 = ",\"artifacts\":"@.len() as int;
    let l6 = ",\"weapons\":"@.len() as int;
    let b1 = 2 + mc;
    let b2 = b1 + l5;
    let b3 = b2 + 2 + ma;
    let b4 = b3 + l6;
    let b5 = b4 + 2 + mw;
    assert(s == h + t);
    assert(t == ((g1 + g2) + g3) + "}"@);
    assert(g1.len() == b1);
    assert(g2.len() == l5 + 2 + ma);
    assert(g3.len() == l6 + 2 + mw);
    assert(tl == b5 + 1);
    assert(li == hl + tl);
    lemma_concat_parts(h, t);
    assert(s.subrange(hl, li) == t);
    lemma_concat_parts((g1 + g2) + g3, "}"@);
    assert(t.subrange(0, b5) == (g1 + g2) + g3);
    lemma_concat_parts(g1 + g2, g3);
    lemma_subrange_of_subrange(t, 0, b5, 0, b3);
    assert(t.subrange(0, b3) == g1 + g2);
    lemma_subrange_of_subrange(t, 0, b5, b3, b5);
    assert(t.subrange(b3, b5) == g3);
    lemma_concat_parts(g1, g2);
    lemma_subrange_of_subrange(t, 0, b3, 0, b1);
    assert(t.subrange(0, b1) == g1);
    lemma_subrange_of_subrange(t, 0, b3, b1, b3);
    assert(t.subrange(b1, b3) == g2);

    lemma_concat_parts(",\"artifacts\":"@, "["@ + emit_artifact_items(g.artifacts) + "]"@);
    lemma_subrange_of_subrange(t, b1, b3, l5, b3 - b1);
    assert(t.subrange(b2, b3) == "["@ + emit_artifact_items(g.artifacts) + "]"@);
    lemma_subrange_of_subrange(s, hl, li, b2, b3);
    assert(s.subrange(hl + b2, hl + b3) == "["@ + emit_artifact_items(g.artifacts) + "]"@);
    lemma_p_artifact_list_inverts(s, hl + b2, g.artifacts);
}

#[verifier::rlimit(100)]
#[verifier::spinoff_prover]
proof fn lemma_doc_tail_lit_weaps(g: crate::good::GoodV)
    requires
        encodable(g),
    ensures
        ({
            let s = emit_doc(g);
            let a10 = doc_lists_start(g) + 2 + emit_character_items(g.characters).len() as int
                + ",\"artifacts\":"@.len() as int + 2 + emit_artifact_items(
                g.artifacts,
            ).len() as int;
            let a11 = a10 + ",\"weapons\":"@.len() as int;
            p_lit(s, a10, ",\"weapons\":"@) == Some(a11)
        }),
{
    reveal_strlit("[");
    reveal_strlit("]");
    reveal_strlit("}");
    let s = emit_doc(g);
    let li = s.len() as int;
    let h = emit_doc_header(g);
    let hl = h.len() as int;
    let t = emit_doc_lists(g);
    let tl = t.len() as int;
    let g1 = "["@ + emit_character_items(g.characters) + "]"@;
    let g2 = ",\"artifacts\":"@ + ("["@ + emit_artifact_items(g.artifacts) + "]"@);
    let g3 = ",\"weapons\":"@ + ("["@ + emit_weapon_items(g.weapons) + "]"@);
    let mc = emit_character_items(g.characters).len() as int;
    let ma = emit_artifact_items(g.artifacts).len() as int;
    let mw = emit_weapon_items(g.weapons).len() as int;
    let l5 = ",\"artifacts\":"@.len() as int;
    let l6 = ",\"weapons\":"@.len() as int;
    let b1 = 2 + mc;
    let b2 = b1 + l5;
    let b3 = b2 + 2 + ma;
    let b4 = b3 + l6;
    let b5 = b4 + 2 + mw;
    assert(s == h + t);
    assert(t == ((g1 + g2) + g3) + "}"@);
    assert(g1.len() == b1);
    assert(g2.len() == l5 + 2 + ma);
    assert(g3.len() == l6 + 2 + mw);
    assert(tl == b5 + 1);
    assert(li == hl + tl);
    lemma_concat_parts(h, t);
    assert(s.subrange(hl, li) == t);
    lemma_concat_parts((g1 + g2) + g3, "}"@);
    assert(t.subrange(0, b5) == (g1 + g2) + g3);
    lemma_concat_parts(g1 + g2, g3);
    lemma_subrange_of_subrange(t, 0, b5, 0, b3);
    assert(t.subrange(0, b3) == g1 + g2);
    lemma_subrange_of_subrange(t, 0, b5, b3, b5);
    assert(t.subrange(b3, b5) == g3);
    lemma_concat_parts(g1, g2);
    lemma_subrange_of_subrange(t, 0, b3, 0, b1);
    assert(t.subrange(0, b1) == g1);
    lemma_subrange_of_subrange(t, 0, b3, b1, b3);
    assert(t.subrange(b1, b3) == g2);

    lemma_concat_parts(",\"weapons\":"@, "["@ + emit_weapon_items(g.weapons) + "]"@);
    lemma_subrange_of_subrange(t, b3, b5, 0, l6);
    assert(t.subrange(b3, b4) == ",\"weapons\":"@);
    lemma_subrange_of_subrange(s, hl, li, b3, b4);
    assert(s.subrange(hl + b3, hl + b4) == ",\"weapons\":"@);
    lemma_p_lit_inverts(s, hl + b3, ",\"weapons\":"@);
}

#[verifier::rlimit(100)]
#[verifier::spinoff_prover]
proof fn lemma_doc_tail_weaps(g: crate::good::GoodV)
    requires
        encodable(g),
    ensures
        ({
            let s = emit_doc(g);
            let a11 = doc_lists_start(g) + 2 + emit_character_items(g.characters).len() as int
                + ",\"artifacts\":"@.len() as int + 2 + emit_artifact_items(
                g.artifacts,
            ).len() as int + ",\"weapons\":"@.len() as int;
            let a12 = a11 + 2 + emit_weapon_items(g.weapons).len() as int;
            &&& p_weapon_list(s, a11) == Some((g.weapons, a12))
            &&& p_lit(s, a12, "}"@) == Some(s.len() as int)
            &&& a12 + 1 == s.len()
        }),
{
    reveal_strlit("[");
    reveal_strlit("]");
    reveal_strlit("}");
    let s = emit_doc(g);
    let li = s.len() as int;
    let h = emit_doc_header(g);
    let hl = h.len() as int;
    let t = emit_doc_lists(g);
    let tl = t.len() as int;
    let g1 = "["@ + emit_character_items(g.characters) + "]"@;
    let g2 = ",\"artifacts\":"@ + ("["@ + emit_artifact_items(g.artifacts) + "]"@);
    let g3 = ",\"weapons\":"@ + ("["@ + emit_weapon_items(g.weapons) + "]"@);
    let mc = emit_character_items(g.characters).len() as int;
    let ma = emit_artifact_items(g.artifacts).len() as int;
    let mw = emit_weapon_items(g.weapons).len() as int;
    let l5 = ",\"artifacts\":"@.len() as int;
    let l6 = ",\"weapons\":"@.len() as int;
    let b1 = 2 + mc;
    let b2 = b1 + l5;
    let b3 = b2 + 2 + ma;
    let b4 = b3 + l6;
    let b5 = b4 + 2 + mw;
    assert(s == h + t);
    assert(t == ((g1 + g2) + g3) + "}"@);
    assert(g1.len() == b1);
    assert(g2.len() == l5 + 2 + ma);
    assert(g3.len() == l6 + 2 + mw);
    assert(tl == b5 + 1);
    assert(li == hl + tl);
    lemma_concat_parts(h, t);
    assert(s.subrange(hl, li) == t);
    lemma_concat_parts((g1 + g2) + g3, "}"@);
    assert(t.subrange(0, b5) == (g1 + g2) + g3);
    assert(t.subrange(b5, tl) == "}"@);
    lemma_concat_parts(g1 + g2, g3);
    lemma_subrange_of_subrange(t, 0, b5, 0, b3);
    assert(t.subrange(0, b3) == g1 + g2);
    lemma_subrange_of_subrange(t, 0, b5, b3, b5);
    assert(t.subrange(b3, b5) == g3);
    lemma_concat_parts(g1, g2);
    lemma_subrange_of_subrange(t, 0, b3, 0, b1);
    assert(t.subrange(0, b1) == g1);
    lemma_subrange_of_subrange(t, 0, b3, b1, b3);
    assert(t.subrange(b1, b3) == g2);

    lemma_concat_parts(",\"weapons\":"@, "["@ + emit_weapon_items(g.weapons) + "]"@);
    lemma_subrange_of_subrange(t, b3, b5, l6, b5 - b3);
    assert(t.subrange(b4, b5) == "["@ + emit_weapon_items(g.weapons) + "]"@);
    lemma_subrange_of_subrange(s, hl, li, b4, b5);
    assert(s.subrange(hl + b4, hl + b5) == "["@ + emit_weapon_items(g.weapons) + "]"@);
    lemma_p_weapon_list_inverts(s, hl + b4, g.weapons);
    lemma_subrange_of_subrange(s, hl, li, b5, tl);
    assert(s.subrange(hl + b5, li) == "}"@);
    lemma_p_lit_inverts(s, hl + b5, "}"@);
}

/// Law: the canonical document format is lossless. Reading a serialized
/// collection back yields exactly the collection that was written, every
/// field preserved, sub-stat values to the character.
#[verifier::rlimit(100)]
#[verifier::spinoff_prover]
pub proof fn lemma_doc_round_trip(g: crate::good::GoodV)
    requires
        encodable(g),
    ensures
        p_doc(emit_doc(g)) == Some((g, emit_doc(g).len() as int)),
{
    lemma_doc_round_trip_header(g);
    lemma_doc_tail_chars(g);
    lemma_doc_tail_lit_arts(g);
    lemma_doc_tail_arts(g);
    lemma_doc_tail_lit_weaps(g);
    lemma_doc_tail_weaps(g);
    assert((crate::good::GoodV {
        format: g.format,
        version: g.version,
        source: g.source,
        characters: g.characters,
        artifacts: g.artifacts,
        weapons: g.weapons,
    }) =~= g);
}

fn write_qstr(out: &mut String, t: &String)
    ensures
        final(out)@ == old(out)@ + emit_qstr(t@),
{
    proof {
        reveal_strlit("\"");
    }
    out.append("\"");
    out.append(t.as_str());
    out.append("\"");
    proof {
        assert(final(out)@ =~= old(out)@ + emit_qstr(t@));
    }
}

fn write_substat(out: &mut String, v: &GoodSubstat)
    ensures
        final(out)@ == old(out)@ + emit_substat(v@),
{
    out.append("{\"key\":");
    write_qstr(out, &v.key);
    out.append(",\"value\":");
    out.append(v.value.as_str());
    out.append("}");
    proof {
        assert(final(out)@ =~= old(out)@ + emit_substat(v@));
    }
}

fn write_substat_list(out: &mut String, items: &Vec<GoodSubstat>)
    ensures
        final(out)@ == old(out)@ + emit_substat_list(items.deep_view()),
{
    let ghost base = out@;
    let ghost m = items.deep_view();
    out.append("[");
    let n = items.len();
    let mut i: usize = 0;
    proof {
        assert(m.subrange(0, 0) =~= Seq::<SubstatV>::empty());
        assert(out@ =~= base + "["@ + emit_substat_items(m.subrange(0, 0)));
    }
    while i < n
        invariant
            0 <= i <= n,
            n == items@.len(),
            m == items.deep_view(),
            out@ == base + "["@ + emit_substat_items(m.subrange(0, i as int)),
        decreases n - i,
    {
        if i > 0 {
            out.append(",");
        }
        write_substat(out, &items[i]);
        proof {
            assert(m.subrange(0, i + 1) =~= m.subrange(0, i as int).push(m[i as int]));
            lemma_emit_substat_items_snoc(m.subrange(0, i as int), m[i as int]);
            assert(out@ =~= base + "["@ + emit_substat_items(m.subrange(0, i + 1)));
        }
        i = i + 1;
    }
    out.append("]");
    proof {
        assert(m.subrange(0, n as int) =~= m);
        assert(out@ =~= base + emit_substat_list(m));
    }
}

fn write_artifact(out: &mut String, a: &GoodArtifact)
    ensures
        final(out)@ == old(out)@ + emit_artifact(a@),
{
    out.append("{\"setKey\":");
    write_qstr(out, &a.set_key);
    out.append(",\"slotKey\":");
    write_qstr(out, &a.slot_key);
    out.append(",\"level\":");
    push_decimal(out, a.level as u64);
    out.append(",\"rarity\":");
    push_decimal(out, a.rarity as u64);
    out.append(",\"mainStatKey\":");
    write_qstr(out, &a.main_stat_key);
    out.append(",\"location\":");
    write_qstr(out, &a.location);
    out.append(",\"substats\":");
    write_substat_list(out, &a.substats);
    out.append("}");
    proof {
        assert(final(out)@ =~= old(out)@ + emit_artifact(a@));
    }
}

fn write_weapon(out: &mut String, w: &GoodWeapon)
    ensures
        final(out)@ == old(out)@ + emit_weapon(w@),
{
    out.append("{\"key\":");
    write_qstr(out, &w.key);
    out.append(",\"level\":");
    push_decimal(out, w.level as u64);
    out.append(",\"ascension\":");
    push_decimal(out, w.ascension as u64);
    out.append(",\"refinement\":");
    push_decimal(out, w.refinement as u64);
    out.append(",\"location\":");
    write_qstr(out, &w.location);
    out.append("}");
    proof {
        assert(final(out)@ =~= old(out)@ + emit_weapon(w@));
    }
}

fn write_character(out: &mut String, c: &GoodCharacter)
    ensures
        final(out)@ == old(out)@ + emit_character(c@),
{
    out.append("{\"key\":");
    write_qstr(out, &c.key);
    out.append(",\"level\":");
    push_decimal(out, c.level as u64);
    out.append(",\"constellation\":");
    push_decimal(out, c.constellation as u64);
    out.append(",\"ascension\":");
    push_decimal(out, c.ascension as u64);
    out.append(",\"talent\":{\"auto\":");
    push_decimal(out, c.talent.auto as u64);
    out.append(",\"skill\":");
    push_decimal(out, c.talent.skill as u64);
    out.append(",\"burst\":");
    push_decimal(out, c.talent.burst as u64);
    out.append("}}");
    proof {
        assert(final(out)@ =~= old(out)@ + emit_character(c@));
    }
}

fn write_character_list(out: &mut String, items: &Vec<GoodCharacter>)
    ensures
        final(out)@ == old(out)@ + "["@ + emit_character_items(items.deep_view()) + "]"@,
{
    let ghost base = out@;
    let ghost m = items.deep_view();
    out.append("[");
    let n = items.len();
    let mut i: usize = 0;
    proof {
        assert(m.subrange(0, 0) =~= Seq::<CharacterV>::empty());
        assert(out@ =~= base + "["@ + emit_character_items(m.subrange(0, 0)));
    }
    while i < n
        invariant
            0 <= i <= n,
            n == items@.len(),
            m == items.deep_view(),
            out@ == base + "["@ + emit_character_items(m.subrange(0, i as int)),
        decreases n - i,
    {
        if i > 0 {
            out.append(",");
        }
        write_character(out, &items[i]);
        proof {
            assert(m.subrange(0, i + 1) =~= m.subrange(0, i as int).push(m[i as int]));
            lemma_emit_character_items_snoc(m.subrange(0, i as int), m[i as int]);
            assert(out@ =~= base + "["@ + emit_character_items(m.subrange(0, i + 1)));
        }
        i = i + 1;
    }
    out.append("]");
    proof {
        assert(m.subrange(0, n as int) =~= m);
    }
}

fn write_artifact_list(out: &mut String, items: &Vec<GoodArtifact>)
    ensures
        final(out)@ == old(out)@ + "["@ + emit_artifact_items(items.deep_view()) + "]"@,
{
    let ghost base = out@;
    let ghost m = items.deep_view();
    out.append("[");
    let n = items.len();
    let mut i: usize = 0;
    proof {
        assert(m.subrange(0, 0) =~= Seq::<ArtifactV>::empty());
        assert(out@ =~= base + "["@ + emit_artifact_items(m.subrange(0, 0)));
    }
    while i < n
        invariant
            0 <= i <= n,
            n == items@.len(),
            m == items.deep_view(),
            out@ == base + "["@ + emit_artifact_items(m.subrange(0, i as int)),
        decreases n - i,
    {
        if i > 0 {
            out.append(",");
        }
        write_artifact(out, &items[i]);
        proof {
            assert(m.subrange(0, i + 1) =~= m.subrange(0, i as int).push(m[i as int]));
            lemma_emit_artifact_items_snoc(m.subrange(0, i as int), m[i as int]);
            assert(out@ =~= base + "["@ + emit_artifact_items(m.subrange(0, i + 1)));
        }
        i = i + 1;
    }
    out.append("]");
    proof {
        assert(m.subrange(0, n as int) =~= m);
    }
}

fn write_weapon_list(out: &mut String, items: &Vec<GoodWeapon>)
    ensures
        final(out)@ == old(out)@ + "["@ + emit_weapon_items(items.deep_view()) + "]"@,
{
    let ghost base = out@;
    let ghost m = items.deep_view();
    out.append("[");
    let n = items.len();
    let mut i: usize = 0;
    proof {
        assert(m.subrange(0, 0) =~= Seq::<WeaponV>::empty());
        assert(out@ =~= base + "["@ + emit_weapon_items(m.subrange(0, 0)));
    }
    while i < n
        invariant
            0 <= i <= n,
            n == items@.len(),
            m == items.deep_view(),
            out@ == base + "["@ + emit_weapon_items(m.subrange(0, i as int)),
        decreases n - i,
    {
        if i > 0 {
            out.append(",");
        }
        write_weapon(out, &items[i]);
        proof {
            assert(m.subrange(0, i + 1) =~= m.subrange(0, i as int).push(m[i as int]));
            lemma_emit_weapon_items_snoc(m.subrange(0, i as int), m[i as int]);
            assert(out@ =~= base + "["@ + emit_weapon_items(m.subrange(0, i + 1)));
        }
        i = i + 1;
    }
    out.append("]");
    proof {
        assert(m.subrange(0, n as int) =~= m);
    }
}

/// Scanning quoted text skips over clean characters.
proof fn lemma_scan_text_skip(s: Seq<char>, i: int, j: int)
    requires
        0 <= i <= j <= s.len(),
        forall|k: int|
            i <= k < j ==> !((#[trigger] s[k]) == '"' || s[k] == '\\' || (s[k] as u32) < 32),
    ensures
        scan_text_end(s, i) == scan_text_end(s, j),
    decreases j - i,
{
    if i < j {
        lemma_scan_text_skip(s, i + 1, j);
    }
}

/// Scanning number text skips over number characters.
proof fn lemma_scan_num_skip(s: Seq<char>, i: int, j: int)
    requires
        0 <= i <= j <= s.len(),
        forall|k: int| i <= k < j ==> is_number_char(#[trigger] s[k]),
    ensures
        scan_num_end(s, i) == scan_num_end(s, j),
    decreases j - i,
{
    if i < j {
        lemma_scan_num_skip(s, i + 1, j);
    }
}

/// Scanning digits skips over decimal digits.
proof fn lemma_scan_digit_skip(s: Seq<char>, i: int, j: int)
    requires
        0 <= i <= j <= s.len(),
        forall|k: int| i <= k < j ==> is_dec_digit(#[trigger] s[k]),
    ensures
        scan_digit_end(s, i) == scan_digit_end(s, j),
    decreases j - i,
{
    if i < j {
        lemma_scan_digit_skip(s, i + 1, j);
    }
}

fn skip_lit(s: &String, pos: usize, lit: &str) -> (r: Option<usize>)
    requires
        pos <= s@.len(),
    ensures
        (match r {
            Some(end) => pos <= end <= s@.len() && p_lit(s@, pos as int, lit@) == Some(end as int),
            None => p_lit(s@, pos as int, lit@) is None,
        }),
{
    let n = s.as_str().unicode_len();
    let m = lit.unicode_len();
    if m > n - pos {
        return None;
    }
    let mut i: usize = 0;
    while i < m
        invariant
            0 <= i <= m,
            m == lit@.len(),
            n == s@.len(),
            pos + m <= n,
            forall|j: int| 0 <= j < i ==> s@[pos + j] == lit@[j],
        decreases m - i,
    {
        if s.as_str().get_char(pos + i) != lit.get_char(i) {
            proof {
                assert(s@.subrange(pos as int, pos + lit@.len())[i as int] == s@[pos + i]);
            }
            return None;
        }
        i = i + 1;
    }
    proof {
        assert(s@.subrange(pos as int, pos + lit@.len()) =~= lit@);
    }
    Some(pos + m)
}

fn scan_qstr(s: &String, pos: usize) -> (r: Option<(String, usize)>)
    requires
        pos <= s@.len(),
    ensures
        (match r {
            Some(p) => pos < p.1 <= s@.len() && p_qstr(s@, pos as int) == Some(
                (p.0@, p.1 as int),
            ),
            None => p_qstr(s@, pos as int) is None,
        }),
{
    let n = s.as_str().unicode_len();
    if pos >= n || s.as_str().get_char(pos) != '"' {
        return None;
    }
    let mut j: usize = pos + 1;
    while j < n
        invariant
            pos + 1 <= j <= n,
            n == s@.len(),
            pos < s@.len(),
            s@[pos as int] == '"',
            forall|k: int|
                pos + 1 <= k < j ==> !((#[trigger] s@[k]) == '"' || s@[k] == '\\' || (
                s@[k] as u32) < 32),
        decreases n - j,
    {
        let c = s.as_str().get_char(j);
        if c == '"' {
            proof {
                lemma_scan_text_skip(s@, pos + 1, j as int);
                assert(scan_text_end(s@, j as int) == j as int);
            }
            let t = s.as_str().substring_char(pos + 1, j).to_owned();
            return Some((t, j + 1));
        }
        if c == '\\' || (c as u32) < 32 {
            proof {
                lemma_scan_text_skip(s@, pos + 1, j as int);
                assert(scan_text_end(s@, j as int) == j as int);
            }
            return None;
        }
        j = j + 1;
    }
    proof {
        lemma_scan_text_skip(s@, pos + 1, n as int);
        assert(scan_text_end(s@, n as int) == n as int);
    }
    None
}

fn scan_number_text(s: &String, pos: usize) -> (r: Option<(String, usize)>)
    requires
        pos <= s@.len(),
    ensures
        (match r {
            Some(p) => pos < p.1 <= s@.len() && p_numtext(s@, pos as int) == Some(
                (p.0@, p.1 as int),
            ),
            None => p_numtext(s@, pos as int) is None,
        }),
{
    let n = s.as_str().unicode_len();
    let mut j: usize = pos;
    while j < n
        invariant
            pos <= j <= n,
            n == s@.len(),
            forall|k: int| pos <= k < j ==> is_number_char(#[trigger] s@[k]),
        decreases n - j,
    {
        let c = s.as_str().get_char(j);
        let cu = c as u32;
        let numeric = (48 <= cu && cu <= 57) || c == '.' || c == '-' || c == '+' || c == 'e' || c
            == 'E';
        if !numeric {
            proof {
                lemma_scan_num_skip(s@, pos as int, j as int);
                assert(scan_num_end(s@, j as int) == j as int);
            }
            if j == pos {
                return None;
            }
            return Some((s.as_str().substring_char(pos, j).to_owned(), j));
        }
        j = j + 1;
    }
    proof {
        lemma_scan_num_skip(s@, pos as int, j as int);
        assert(scan_num_end(s@, j as int) == j as int);
    }
    if j == pos {
        return None;
    }
    Some((s.as_str().substring_char(pos, j).to_owned(), j))
}

fn scan_u8(s: &String, pos: usize) -> (r: Option<(u8, usize)>)
    requires
        pos <= s@.len(),
    ensures
        (match r {
            Some(p) => pos < p.1 <= s@.len() && p_u8(s@, pos as int) == Some((p.0, p.1 as int)),
            None => p_u8(s@, pos as int) is None,
        }),
{
    let n = s.as_str().unicode_len();
    let mut j: usize = pos;
    while j < n
        invariant
            pos <= j <= n,
            n == s@.len(),
            forall|k: int| pos <= k < j ==> is_dec_digit(#[trigger] s@[k]),
        decreases n - j,
    {
        let cu = s.as_str().get_char(j) as u32;
        if cu < 48 || cu > 57 {
            proof {
                lemma_scan_digit_skip(s@, pos as int, j as int);
                assert(scan_digit_end(s@, j as int) == j as int);
            }
            if j == pos {
                return None;
            }
            let t = s.as_str().substring_char(pos, j);
            return (match crate::strutil::parse_u8(t) {
                Some(v) => Some((v, j)),
                None => None,
            });
        }
        j = j + 1;
    }
    proof {
        lemma_scan_digit_skip(s@, pos as int, j as int);
        assert(scan_digit_end(s@, j as int) == j as int);
    }
    if j == pos {
        return None;
    }
    let t = s.as_str().substring_char(pos, j);
    match crate::strutil::parse_u8(t) {
        Some(v) => Some((v, j)),
        None => None,
    }
}

fn parse_substat(s: &String, pos: usize) -> (r: Option<(GoodSubstat, usize)>)
    requires
        pos <= s@.len(),
    ensures
        (match r {
            Some(p) => pos < p.1 <= s@.len() && p_substat(s@, pos as int) == Some(
                (p.0@, p.1 as int),
            ),
            None => p_substat(s@, pos as int) is None,
        }),
{
    let p1 = match skip_lit(s, pos, "{\"key\":") {
        Some(p) => p,
        None => {
            return None;
        },
    };
    let (key, p2) = match scan_qstr(s, p1) {
        Some(p) => p,
        None => {
            return None;
        },
    };
    let p3 = match skip_lit(s, p2, ",\"value\":") {
        Some(p) => p,
        None => {
            return None;
        },
    };
    let (value, p4) = match scan_number_text(s, p3) {
        Some(p) => p,
        None => {
            return None;
        },
    };
    let p5 = match skip_lit(s, p4, "}") {
        Some(p) => p,
        None => {
            return None;
        },
    };
    Some((GoodSubstat { key, value }, p5))
}

#[verifier::rlimit(100)]
fn parse_substat_list(s: &String, pos: usize) -> (r: Option<(Vec<GoodSubstat>, usize)>)
    requires
        pos <= s@.len(),
    ensures
        (match r {
            Some(p) => pos <= p.1 <= s@.len() && p_substat_list(s@, pos as int) == Some(
                (p.0.deep_view(), p.1 as int),
            ),
            None => p_substat_list(s@, pos as int) is None,
        }),
{
    let start = match skip_lit(s, pos, "[") {
        Some(p) => p,
        None => {
            return None;
        },
    };
    let mut out: Vec<GoodSubstat> = Vec::new();
    match skip_lit(s, start, "]") {
        Some(q) => {
            proof {
                assert(out.deep_view() =~= Seq::<SubstatV>::empty());
            }
            return Some((out, q));
        },
        None => (),
    }
    let mut p = start;
    proof {
        assert(out.deep_view() =~= Seq::<SubstatV>::empty());
        if p_substat_items(s@, start as int) is Some {
            let ip = p_substat_items(s@, start as int)->Some_0;
            assert(out.deep_view() + ip.0 =~= ip.0);
        }
    }
    loop
        invariant
            pos <= s@.len(),
            pos <= start <= p,
            start <= s@.len(),
            p <= s@.len(),
            p_lit(s@, pos as int, "["@) == Some(start as int),
            p_lit(s@, start as int, "]"@) is None,
            (match p_substat_items(s@, p as int) {
                Some(ip) => p_substat_items(s@, start as int) == Some(
                    (out.deep_view() + ip.0, ip.1),
                ),
                None => p_substat_items(s@, start as int) is None,
            }),
        decreases s@.len() - p,
    {
        let pr = match parse_substat(s, p) {
            Some(x) => x,
            None => {
                return None;
            },
        };
        let q = pr.1;
        let ghost vv = pr.0@;
        let ghost before = out.deep_view();
        out.push(pr.0);
        proof {
            assert(out.deep_view() =~= before.push(vv));
        }
        match skip_lit(s, q, "]") {
            Some(e) => {
                proof {
                    reveal_strlit("]");
                    assert(s@.subrange(q as int, q + 1) == "]"@);
                    assert(s@.subrange(q as int, q + 1)[0] == s@[q as int]);
                    assert(s@[q as int] == ']');
                    assert(p_substat_items(s@, p as int) == Some((seq![vv], q as int)));
                    assert(before + seq![vv] =~= out.deep_view());
                    assert(p_substat_items(s@, start as int) == Some(
                        (out.deep_view(), q as int),
                    ));
                    assert(p_substat_list(s@, pos as int) == Some((out.deep_view(), e as int)));
                }
                return Some((out, e));
            },
            None => (),
        }
        let q2 = match skip_lit(s, q, ",") {
            Some(x) => x,
            None => {
                proof {
                    reveal_strlit(",");
                    if q < s@.len() && s@[q as int] == ',' {
                        assert(s@.subrange(q as int, q + 1) =~= ","@);
                        assert(false);
                    }
                    assert(p_substat_items(s@, p as int) == Some((seq![vv], q as int)));
                }
                return None;
            },
        };
        proof {
            reveal_strlit(",");
            assert(s@.subrange(q as int, q + 1) == ","@);
            assert(s@.subrange(q as int, q + 1)[0] == s@[q as int]);
            assert(s@[q as int] == ',');
            assert(q2 == q + 1);
            if p_substat_items(s@, q2 as int) is Some {
                let rp = p_substat_items(s@, q2 as int)->Some_0;
                assert(p_substat_items(s@, p as int) == Some((seq![vv] + rp.0, rp.1)));
                assert(before + (seq![vv] + rp.0) =~= out.deep_view() + rp.0);
            }
        }
        p = q2;
    }
}

fn parse_artifact(s: &String, pos: usize) -> (r: Option<(GoodArtifact, usize)>)
    requires
        pos <= s@.len(),
    ensures
        (match r {
            Some(p) => pos < p.1 <= s@.len() && p_artifact(s@, pos as int) == Some(
                (p.0@, p.1 as int),
            ),
            None => p_artifact(s@, pos as int) is None,
        }),
{
    let p1 = match skip_lit(s, pos, "{\"setKey\":") {
        Some(p) => p,
        None => {
            return None;
        },
    };
    let (set_key, p2) = match scan_qstr(s, p1) {
        Some(p) => p,
        None => {
            return None;
        },
    };
    let p3 = match skip_lit(s, p2, ",\"slotKey\":") {
        Some(p) => p,
        None => {
            return None;
        },
    };
    let (slot_key, p4) = match scan_qstr(s, p3) {
        Some(p) => p,
        None => {
            return None;
        },
    };
    let p5 = match skip_lit(s, p4, ",\"level\":") {
        Some(p) => p,
        None => {
            return None;
        },
    };
    let (level, p6) = match scan_u8(s, p5) {
        Some(p) => p,
        None => {
            return None;
        },
    };
    let p7 = match skip_lit(s, p6, ",\"rarity\":") {
        Some(p) => p,
        None => {
            return None;
        },
    };
    let (rarity, p8) = match scan_u8(s, p7) {
        Some(p) => p,
        None => {
            return None;
        },
    };
    let p9 = match skip_lit(s, p8, ",\"mainStatKey\":") {
        Some(p) => p,
        None => {
            return None;
        },
    };
    let (main_stat_key, p10) = match scan_qstr(s, p9) {
        Some(p) => p,
        None => {
            return None;
        },
    };
    let p11 = match skip_lit(s, p10, ",\"location\":") {
        Some(p) => p,
        None => {
            return None;
        },
    };
    let (location, p12) = match scan_qstr(s, p11) {
        Some(p) => p,
        None => {
            return None;
        },
    };
    let p13 = match skip_lit(s, p12, ",\"substats\":") {
        Some(p) => p,
        None => {
            return None;
        },
    };
    let (substats, p14) = match parse_substat_list(s, p13) {
        Some(p) => p,
        None => {
            return None;
        },
    };
    let p15 = match skip_lit(s, p14, "}") {
        Some(p) => p,
        None => {
            return None;
        },
    };
    Some(
        (
            GoodArtifact { set_key, slot_key, level, rarity, main_stat_key, location, substats },
            p15,
        ),
    )
}

fn parse_weapon(s: &String, pos: usize) -> (r: Option<(GoodWeapon, usize)>)
    requires
        pos <= s@.len(),
    ensures
        (match r {
            Some(p) => pos < p.1 <= s@.len() && p_weapon(s@, pos as int) == Some(
                (p.0@, p.1 as int),
            ),
            None => p_weapon(s@, pos as int) is None,
        }),
{
    let p1 = match skip_lit(s, pos, "{\"key\":") {
        Some(p) => p,
        None => {
            return None;
        },
    };
    let (key, p2) = match scan_qstr(s, p1) {
        Some(p) => p,
        None => {
            return None;
        },
    };
    let p3 = match skip_lit(s, p2, ",\"level\":") {
        Some(p) => p,
        None => {
            return None;
        },
    };
    let (level, p4) = match scan_u8(s, p3) {
        Some(p) => p,
        None => {
            return None;
        },
    };
    let p5 = match skip_lit(s, p4, ",\"ascension\":") {
        Some(p) => p,
        None => {
            return None;
        },
    };
    let (ascension, p6) = match scan_u8(s, p5) {
        Some(p) => p,
        None => {
            return None;
        },
    };
    let p7 = match skip_lit(s, p6, ",\"refinement\":") {
        Some(p) => p,
        None => {
            return None;
        },
    };
    let (refinement, p8) = match scan_u8(s, p7) {
        Some(p) => p,
        None => {
            return None;
        },
    };
    let p9 = match skip_lit(s, p8, ",\"location\":") {
        Some(p) => p,
        None => {
            return None;
        },
    };
    let (location, p10) = match scan_qstr(s, p9) {
        Some(p) => p,
        None => {
            return None;
        },
    };
    let p11 = match skip_lit(s, p10, "}") {
        Some(p) => p,
        None => {
            return None;
        },
    };
    Some((GoodWeapon { key, level, ascension, refinement, location }, p11))
}

fn parse_character(s: &String, pos: usize) -> (r: Option<(GoodCharacter, usize)>)
    requires
        pos <= s@.len(),
    ensures
        (match r {
            Some(p) => pos < p.1 <= s@.len() && p_character(s@, pos as int) == Some(
                (p.0@, p.1 as int),
            ),
            None => p_character(s@, pos as int) is None,
        }),
{
    let p1 = match skip_lit(s, pos, "{\"key\":") {
        Some(p) => p,
        None => {
            return None;
        },
    };
    let (key, p2) = match scan_qstr(s, p1) {
        Some(p) => p,
        None => {
            return None;
        },
    };
    let p3 = match skip_lit(s, p2, ",\"level\":") {
        Some(p) => p,
        None => {
            return None;
        },
    };
    let (level, p4) = match scan_u8(s, p3) {
        Some(p) => p,
        None => {
            return None;
        },
    };
    let p5 = match skip_lit(s, p4, ",\"constellation\":") {
        Some(p) => p,
        None => {
            return None;
        },
    };
    let (constellation, p6) = match scan_u8(s, p5) {
        Some(p) => p,
        None => {
            return None;
        },
    };
    let p7 = match skip_lit(s, p6, ",\"ascension\":") {
        Some(p) => p,
        None => {
            return None;
        },
    };
    let (ascension, p8) = match scan_u8(s, p7) {
        Some(p) => p,
        None => {
            return None;
        },
    };
    let p9 = match skip_lit(s, p8, ",\"talent\":{\"auto\":") {
        Some(p) => p,
        None => {
            return None;
        },
    };
    let (auto, p10) = match scan_u8(s, p9) {
        Some(p) => p,
        None => {
            return None;
        },
    };
    let p11 = match skip_lit(s, p10, ",\"skill\":") {
        Some(p) => p,
        None => {
            return None;
        },
    };
    let (skill, p12) = match scan_u8(s, p11) {
        Some(p) => p,
        None => {
            return None;
        },
    };
    let p13 = match skip_lit(s, p12, ",\"burst\":") {
        Some(p) => p,
        None => {
            return None;
        },
    };
    let (burst, p14) = match scan_u8(s, p13) {
        Some(p) => p,
        None => {
            return None;
        },
    };
    let p15 = match skip_lit(s, p14, "}}") {
        Some(p) => p,
        None => {
            return None;
        },
    };
    let talent = GoodTalents { auto, skill, burst };
    Some((GoodCharacter { key, level, constellation, ascension, talent }, p15))
}

#[verifier::rlimit(100)]
fn parse_character_list(s: &String, pos: usize) -> (r: Option<(Vec<GoodCharacter>, usize)>)
    requires
        pos <= s@.len(),
    ensures
        (match r {
            Some(p) => pos <= p.1 <= s@.len() && p_character_list(s@, pos as int) == Some(
                (p.0.deep_view(), p.1 as int),
            ),
            None => p_character_list(s@, pos as int) is None,
        }),
{
    let start = match skip_lit(s, pos, "[") {
        Some(p) => p,
        None => {
            return None;
        },
    };
    let mut out: Vec<GoodCharacter> = Vec::new();
    match skip_lit(s, start, "]") {
        Some(q) => {
            proof {
                assert(out.deep_view() =~= Seq::<CharacterV>::empty());
            }
            return Some((out, q));
        },
        None => (),
    }
    let mut p = start;
    proof {
        assert(out.deep_view() =~= Seq::<CharacterV>::empty());
        if p_character_items(s@, start as int) is Some {
            let ip = p_character_items(s@, start as int)->Some_0;
            assert(out.deep_view() + ip.0 =~= ip.0);
        }
    }
    loop
        invariant
            pos <= s@.len(),
            pos <= start <= p,
            start <= s@.len(),
            p <= s@.len(),
            p_lit(s@, pos as int, "["@) == Some(start as int),
            p_lit(s@, start as int, "]"@) is None,
            (match p_character_items(s@, p as int) {
                Some(ip) => p_character_items(s@, start as int) == Some(
                    (out.deep_view() + ip.0, ip.1),
                ),
                None => p_character_items(s@, start as int) is None,
            }),
        decreases s@.len() - p,
    {
        let pr = match parse_character(s, p) {
            Some(x) => x,
            None => {
                return None;
            },
        };
        let q = pr.1;
        let ghost vv = pr.0@;
        let ghost before = out.deep_view();
        out.push(pr.0);
        proof {
            assert(out.deep_view() =~= before.push(vv));
        }
        match skip_lit(s, q, "]") {
            Some(e) => {
                proof {
                    reveal_strlit("]");
                    assert(s@.subrange(q as int, q + 1) == "]"@);
                    assert(s@.subrange(q as int, q + 1)[0] == s@[q as int]);
                    assert(s@[q as int] == ']');
                    assert(p_character_items(s@, p as int) == Some((seq![vv], q as int)));
                    assert(before + seq![vv] =~= out.deep_view());
                    assert(p_character_items(s@, start as int) == Some(
                        (out.deep_view(), q as int),
                    ));
                    assert(p_character_list(s@, pos as int) == Some((out.deep_view(), e as int)));
                }
                return Some((out, e));
            },
            None => (),
        }
        let q2 = match skip_lit(s, q, ",") {
            Some(x) => x,
            None => {
                proof {
                    reveal_strlit(",");
                    if q < s@.len() && s@[q as int] == ',' {
                        assert(s@.subrange(q as int, q + 1) =~= ","@);
                        assert(false);
                    }
                    assert(p_character_items(s@, p as int) == Some((seq![vv], q as int)));
                }
                return None;
            },
        };
        proof {
            reveal_strlit(",");
            assert(s@.subrange(q as int, q + 1) == ","@);
            assert(s@.subrange(q as int, q + 1)[0] == s@[q as int]);
            assert(s@[q as int] == ',');
            assert(q2 == q + 1);
            if p_character_items(s@, q2 as int) is Some {
                let rp = p_character_items(s@, q2 as int)->Some_0;
                assert(p_character_items(s@, p as int) == Some((seq![vv] + rp.0, rp.1)));
                assert(before + (seq![vv] + rp.0) =~= out.deep_view() + rp.0);
            }
        }
        p = q2;
    }
}

#[verifier::rlimit(100)]
fn parse_artifact_list(s: &String, pos: usize) -> (r: Option<(Vec<GoodArtifact>, usize)>)
    requires
        pos <= s@.len(),
    ensures
        (match r {
            Some(p) => pos <= p.1 <= s@.len() && p_artifact_list(s@, pos as int) == Some(
                (p.0.deep_view(), p.1 as int),
            ),
            None => p_artifact_list(s@, pos as int) is None,
        }),
{
    let start = match skip_lit(s, pos, "[") {
        Some(p) => p,
        None => {
            return None;
        },
    };
    let mut out: Vec<GoodArtifact> = Vec::new();
    match skip_lit(s, start, "]") {
        Some(q) => {
            proof {
                assert(out.deep_view() =~= Seq::<ArtifactV>::empty());
            }
            return Some((out, q));
        },
        None => (),
    }
    let mut p = start;
    proof {
        assert(out.deep_view() =~= Seq::<ArtifactV>::empty());
        if p_artifact_items(s@, start as int) is Some {
            let ip = p_artifact_items(s@, start as int)->Some_0;
            assert(out.deep_view() + ip.0 =~= ip.0);
        }
    }
    loop
        invariant
            pos <= s@.len(),
            pos <= start <= p,
            start <= s@.len(),
            p <= s@.len(),
            p_lit(s@, pos as int, "["@) == Some(start as int),
            p_lit(s@, start as int, "]"@) is None,
            (match p_artifact_items(s@, p as int) {
                Some(ip) => p_artifact_items(s@, start as int) == Some(
                    (out.deep_view() + ip.0, ip.1),
                ),
                None => p_artifact_items(s@, start as int) is None,
            }),
        decreases s@.len() - p,
    {
        let pr = match parse_artifact(s, p) {
            Some(x) => x,
            None => {
                return None;
            },
        };
        let q = pr.1;
        let ghost vv = pr.0@;
        let ghost before = out.deep_view();
        out.push(pr.0);
        proof {
            assert(out.deep_view() =~= before.push(vv));
        }
        match skip_lit(s, q, "]") {
            Some(e) => {
                proof {
                    reveal_strlit("]");
                    assert(s@.subrange(q as int, q + 1) == "]"@);
                    assert(s@.subrange(q as int, q + 1)[0] == s@[q as int]);
                    assert(s@[q as int] == ']');
                    assert(p_artifact_items(s@, p as int) == Some((seq![vv], q as int)));
                    assert(before + seq![vv] =~= out.deep_view());
                    assert(p_artifact_items(s@, start as int) == Some(
                        (out.deep_view(), q as int),
                    ));
                    assert(p_artifact_list(s@, pos as int) == Some((out.deep_view(), e as int)));
                }
                return Some((out, e));
            },
            None => (),
        }
        let q2 = match skip_lit(s, q, ",") {
            Some(x) => x,
            None => {
                proof {
                    reveal_strlit(",");
                    if q < s@.len() && s@[q as int] == ',' {
                        assert(s@.subrange(q as int, q + 1) =~= ","@);
                        assert(false);
                    }
                    assert(p_artifact_items(s@, p as int) == Some((seq![vv], q as int)));
                }
                return None;
            },
        };
        proof {
            reveal_strlit(",");
            assert(s@.subrange(q as int, q + 1) == ","@);
            assert(s@.subrange(q as int, q + 1)[0] == s@[q as int]);
            assert(s@[q as int] == ',');
            assert(q2 == q + 1);
            if p_artifact_items(s@, q2 as int) is Some {
                let rp = p_artifact_items(s@, q2 as int)->Some_0;
                assert(p_artifact_items(s@, p as int) == Some((seq![vv] + rp.0, rp.1)));
                assert(before + (seq![vv] + rp.0) =~= out.deep_view() + rp.0);
            }
        }
        p = q2;
    }
}

#[verifier::rlimit(100)]
fn parse_weapon_list(s: &String, pos: usize) -> (r: Option<(Vec<GoodWeapon>, usize)>)
    requires
        pos <= s@.len(),
    ensures
        (match r {
            Some(p) => pos <= p.1 <= s@.len() && p_weapon_list(s@, pos as int) == Some(
                (p.0.deep_view(), p.1 as int),
            ),
            None => p_weapon_list(s@, pos as int) is None,
        }),
{
    let start = match skip_lit(s, pos, "[") {
        Some(p) => p,
        None => {
            return None;
        },
    };
    let mut out: Vec<GoodWeapon> = Vec::new();
    match skip_lit(s, start, "]") {
        Some(q) => {
            proof {
                assert(out.deep_view() =~= Seq::<WeaponV>::empty());
            }
            return Some((out, q));
        },
        None => (),
    }
    let mut p = start;
    proof {
        assert(out.deep_view() =~= Seq::<WeaponV>::empty());
        if p_weapon_items(s@, start as int) is Some {
            let ip = p_weapon_items(s@, start as int)->Some_0;
            assert(out.deep_view() + ip.0 =~= ip.0);
        }
    }
    loop
        invariant
            pos <= s@.len(),
            pos <= start <= p,
            start <= s@.len(),
            p <= s@.len(),
            p_lit(s@, pos as int, "["@) == Some(start as int),
            p_lit(s@, start as int, "]"@) is None,
            (match p_weapon_items(s@, p as int) {
                Some(ip) => p_weapon_items(s@, start as int) == Some(
                    (out.deep_view() + ip.0, ip.1),
                ),
                None => p_weapon_items(s@, start as int) is None,
            }),
        decreases s@.len() - p,
    {
        let pr = match parse_weapon(s, p) {
            Some(x) => x,
            None => {
                return None;
            },
        };
        let q = pr.1;
        let ghost vv = pr.0@;
        let ghost before = out.deep_view();
        out.push(pr.0);
        proof {
            assert(out.deep_view() =~= before.push(vv));
        }
        match skip_lit(s, q, "]") {
            Some(e) => {
                proof {
                    reveal_strlit("]");
                    assert(s@.subrange(q as int, q + 1) == "]"@);
                    assert(s@.subrange(q as int, q + 1)[0] == s@[q as int]);
                    assert(s@[q as int] == ']');
                    assert(p_weapon_items(s@, p as int) == Some((seq![vv], q as int)));
                    assert(before + seq![vv] =~= out.deep_view());
                    assert(p_weapon_items(s@, start as int) == Some(
                        (out.deep_view(), q as int),
                    ));
                    assert(p_weapon_list(s@, pos as int) == Some((out.deep_view(), e as int)));
                }
                return Some((out, e));
            },
            None => (),
        }
        let q2 = match skip_lit(s, q, ",") {
            Some(x) => x,
            None => {
                proof {
                    reveal_strlit(",");
                    if q < s@.len() && s@[q as int] == ',' {
                        assert(s@.subrange(q as int, q + 1) =~= ","@);
                        assert(false);
                    }
                    assert(p_weapon_items(s@, p as int) == Some((seq![vv], q as int)));
                }
                return None;
            },
        };
        proof {
            reveal_strlit(",");
            assert(s@.subrange(q as int, q + 1) == ","@);
            assert(s@.subrange(q as int, q + 1)[0] == s@[q as int]);
            assert(s@[q as int] == ',');
            assert(q2 == q + 1);
            if p_weapon_items(s@, q2 as int) is Some {
                let rp = p_weapon_items(s@, q2 as int)->Some_0;
                assert(p_weapon_items(s@, p as int) == Some((seq![vv] + rp.0, rp.1)));
                assert(before + (seq![vv] + rp.0) =~= out.deep_view() + rp.0);
            }
        }
        p = q2;
    }
}

/// Reads a collection back from document text. The reader is strict,
/// sound and complete for the canonical form: whatever it accepts
/// re-serializes to the very text that was read, and a document that reads
/// back (per `p_doc`) to the collection that wrote it is always accepted.
#[verifier::rlimit(100)]
pub fn from_good_json(s: &String) -> (r: Option<GoodType>)
    ensures
        (match r {
            Some(g) => s@ == emit_doc(g@),
            None => true,
        }),
        (match p_doc(s@) {
            Some(pr) => s@ == emit_doc(pr.0) ==> (match r {
                Some(g) => g@ == pr.0,
                None => false,
            }),
            None => true,
        }),
{
    let p1 = match skip_lit(s, 0, "{\"format\":") {
        Some(p) => p,
        None => {
            return None;
        },
    };
    let (format, p2) = match scan_qstr(s, p1) {
        Some(p) => p,
        None => {
            return None;
        },
    };
    let p3 = match skip_lit(s, p2, ",\"version\":") {
        Some(p) => p,
        None => {
            return None;
        },
    };
    let (version, p4) = match scan_u8(s, p3) {
        Some(p) => p,
        None => {
            return None;
        },
    };
    let p5 = match skip_lit(s, p4, ",\"source\":") {
        Some(p) => p,
        None => {
            return None;
        },
    };
    let (source, p6) = match scan_qstr(s, p5) {
        Some(p) => p,
        None => {
            return None;
        },
    };
    let p7 = match skip_lit(s, p6, ",\"characters\":") {
        Some(p) => p,
        None => {
            return None;
        },
    };
    let (characters, p8) = match parse_character_list(s, p7) {
        Some(p) => p,
        None => {
            return None;
        },
    };
    let p9 = match skip_lit(s, p8, ",\"artifacts\":") {
        Some(p) => p,
        None => {
            return None;
        },
    };
    let (artifacts, p10) = match parse_artifact_list(s, p9) {
        Some(p) => p,
        None => {
            return None;
        },
    };
    let p11 = match skip_lit(s, p10, ",\"weapons\":") {
        Some(p) => p,
        None => {
            return None;
        },
    };
    let (weapons, p12) = match parse_weapon_list(s, p11) {
        Some(p) => p,
        None => {
            return None;
        },
    };
    let g = GoodType { format, version, source, characters, artifacts, weapons };
    proof {
        if p_doc(s@) is Some {
            let pr = p_doc(s@)->Some_0;
            assert(pr.0 =~= g@);
        }
    }
    let rendered = to_good_json(&g);
    if rendered == *s {
        Some(g)
    } else {
        proof {
            if p_doc(s@) is Some {
                let pr = p_doc(s@)->Some_0;
                if s@ == emit_doc(pr.0) {
                    assert(rendered@ == s@);
                    assert(false);
                }
            }
        }
        None
    }
}

/// Serializes a collection to its canonical document text.
#[verifier::rlimit(100)]
pub fn to_good_json(g: &GoodType) -> (r: String)
    ensures
        r@ == emit_doc(g@),
{
    let mut out = String::new();
    out.append("{\"format\":");
    write_qstr(&mut out, &g.format);
    out.append(",\"version\":");
    push_decimal(&mut out, g.version as u64);
    out.append(",\"source\":");
    write_qstr(&mut out, &g.source);
    out.append(",\"characters\":");
    proof {
        assert(out@ =~= emit_doc_header(g@));
    }
    write_character_list(&mut out, &g.characters);
    out.append(",\"artifacts\":");
    write_artifact_list(&mut out, &g.artifacts);
    out.append(",\"weapons\":");
    write_weapon_list(&mut out, &g.weapons);
    out.append("}");
    proof {
        assert(out@ =~= emit_doc_header(g@) + emit_doc_lists(g@));
    }
    out
}

} // verus!
