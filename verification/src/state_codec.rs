//! The persisted state document.
//!
//! The whole state is one JSON object, written compactly in one fixed shape:
//! the tag bindings, the images by config digest, and the layer list. The
//! encoder here is what persisting writes, the parser reads exactly that
//! shape back, and loading what was persisted gives the state back unchanged
//! across all three collections.

use vstd::prelude::*;
use crate::application_state::{ApplicationState, Image, ImageV};
use crate::errors::Error;
use crate::models::registry_models::{Platform, PlatformV};

verus! {

/// What the document holds: the three collections, in document order.
pub ghost struct StateV {
    pub tags: Seq<(Seq<char>, Seq<char>)>,
    pub images: Seq<(Seq<char>, ImageV)>,
    pub layers: Seq<Seq<char>>,
}

/// A state value as document content.
pub open spec fn state_view(st: ApplicationState) -> StateV {
    StateV {
        tags: Seq::new(
            st.tagged_images@.len(),
            |i: int| (st.tagged_images@[i].0@, st.tagged_images@[i].1@),
        ),
        images: Seq::new(st.images@.len(), |i: int| (st.images@[i].0@, st.images@[i].1@)),
        layers: st.layers.deep_view(),
    }
}

/// Document content with each key named once per collection.
pub open spec fn state_v_wf(v: StateV) -> bool {
    &&& forall|i: int, j: int| 0 <= i < j < v.tags.len() ==> (#[trigger] v.tags[i]).0 != (
    #[trigger] v.tags[j]).0
    &&& forall|i: int, j: int| 0 <= i < j < v.images.len() ==> (#[trigger] v.images[i]).0 != (
    #[trigger] v.images[j]).0
    &&& forall|i: int, j: int| 0 <= i < j < v.layers.len() ==> (#[trigger] v.layers[i]) != (
    #[trigger] v.layers[j])
}

// ---------------------------------------------------------------------------
// Encoding
// ---------------------------------------------------------------------------
/// A string body with `"` and `\` escaped.
pub open spec fn esc(s: Seq<char>) -> Seq<char>
    decreases s.len(),
{
    if s.len() == 0 {
        Seq::empty()
    } else {
        (if s[0] == '"' || s[0] == '\\' {
            seq!['\\', s[0]]
        } else {
            seq![s[0]]
        }) + esc(s.drop_first())
    }
}

/// A quoted, escaped string.
pub open spec fn enc_str(s: Seq<char>) -> Seq<char> {
    seq!['"'] + esc(s) + seq!['"']
}

/// The digit characters, low to high.
pub open spec fn digit_char(d: int) -> char {
    if d == 0 {
        '0'
    } else if d == 1 {
        '1'
    } else if d == 2 {
        '2'
    } else if d == 3 {
        '3'
    } else if d == 4 {
        '4'
    } else if d == 5 {
        '5'
    } else if d == 6 {
        '6'
    } else if d == 7 {
        '7'
    } else if d == 8 {
        '8'
    } else {
        '9'
    }
}

/// A number written in decimal.
pub open spec fn dec_digits(n: int) -> Seq<char>
    decreases n,
{
    if n < 10 {
        seq![digit_char(n)]
    } else {
        dec_digits(n / 10).push(digit_char(n % 10))
    }
}

/// One `"key":"value"` member.
pub open spec fn enc_tag_pair(p: (Seq<char>, Seq<char>)) -> Seq<char> {
    enc_str(p.0) + seq![':'] + enc_str(p.1)
}

/// The members of the binding object, comma-separated.
pub open spec fn enc_tag_pairs(ps: Seq<(Seq<char>, Seq<char>)>) -> Seq<char>
    decreases ps.len(),
{
    if ps.len() == 0 {
        Seq::empty()
    } else if ps.len() == 1 {
        enc_tag_pair(ps[0])
    } else {
        enc_tag_pairs(ps.drop_last()) + seq![','] + enc_tag_pair(ps.last())
    }
}

/// The elements of a string array, comma-separated.
pub open spec fn enc_str_elems(ls: Seq<Seq<char>>) -> Seq<char>
    decreases ls.len(),
{
    if ls.len() == 0 {
        Seq::empty()
    } else if ls.len() == 1 {
        enc_str(ls[0])
    } else {
        enc_str_elems(ls.drop_last()) + seq![','] + enc_str(ls.last())
    }
}

/// A string array.
pub open spec fn enc_str_array(ls: Seq<Seq<char>>) -> Seq<char> {
    seq!['['] + enc_str_elems(ls) + seq![']']
}

/// One image record.
pub open spec fn enc_image(v: ImageV) -> Seq<char> {
    "{\"platform\":{\"architecture\":"@ + enc_str(v.platform.architecture) + ",\"os\":"@ + enc_str(
        v.platform.os,
    ) + "},\"name\":"@ + enc_str(v.name) + ",\"tag\":"@ + enc_str(v.tag) + ",\"layers\":"@
        + enc_str_array(v.layers) + ",\"size\":"@ + dec_digits(v.size as int) + "}"@
}

/// One `"digest":{record}` member.
pub open spec fn enc_image_pair(p: (Seq<char>, ImageV)) -> Seq<char> {
    enc_str(p.0) + seq![':'] + enc_image(p.1)
}

/// The members of the image object, comma-separated.
pub open spec fn enc_image_pairs(ps: Seq<(Seq<char>, ImageV)>) -> Seq<char>
    decreases ps.len(),
{
    if ps.len() == 0 {
        Seq::empty()
    } else if ps.len() == 1 {
        enc_image_pair(ps[0])
    } else {
        enc_image_pairs(ps.drop_last()) + seq![','] + enc_image_pair(ps.last())
    }
}

/// The whole document.
pub open spec fn enc_state_v(v: StateV) -> Seq<char> {
    "{\"tagged_images\":{"@ + enc_tag_pairs(v.tags) + "},\"images\":{"@ + enc_image_pairs(v.images)
        + "},\"layers\":"@ + enc_str_array(v.layers) + "}"@
}

/// What persisting a state writes.
pub open spec fn enc_state(st: ApplicationState) -> Seq<char> {
    enc_state_v(state_view(st))
}

/// Splitting the body escape-wise: the first character's escape, then the
/// rest.
pub proof fn lemma_esc_push(s: Seq<char>, c: char)
    ensures
        esc(s.push(c)) == esc(s) + (if c == '"' || c == '\\' {
            seq!['\\', c]
        } else {
            seq![c]
        }),
    decreases s.len(),
{
    let e = s.push(c);
    let tail: Seq<char> = if c == '"' || c == '\\' {
        seq!['\\', c]
    } else {
        seq![c]
    };
    if s.len() == 0 {
        assert(e.drop_first() =~= Seq::<char>::empty());
        assert(e[0] == c);
        assert(esc(Seq::<char>::empty()) =~= Seq::<char>::empty());
        assert(esc(e) == tail + esc(e.drop_first()));
        assert(esc(e) =~= esc(s) + tail);
    } else {
        assert(e.drop_first() =~= s.drop_first().push(c));
        lemma_esc_push(s.drop_first(), c);
        assert(e[0] == s[0]);
        let head: Seq<char> = if s[0] == '"' || s[0] == '\\' {
            seq!['\\', s[0]]
        } else {
            seq![s[0]]
        };
        assert(esc(e) == head + esc(s.drop_first().push(c)));
        assert(esc(s) == head + esc(s.drop_first()));
        assert(esc(e) =~= esc(s) + tail);
    }
}

/// Appends the escaped body of `s`.
fn append_escaped(out: &mut String, s: &str)
    ensures
        final(out)@ == old(out)@ + esc(s@),
{
    let n = s.unicode_len();
    let mut i: usize = 0;
    proof {
        assert(s@.subrange(0, 0) =~= Seq::<char>::empty());
        assert(old(out)@ + esc(s@.subrange(0, 0)) =~= old(out)@);
    }
    while i < n
        invariant
            0 <= i <= n,
            n == s@.len(),
            out@ == old(out)@ + esc(s@.subrange(0, i as int)),
        decreases n - i,
    {
        let c = s.get_char(i);
        if c == '"' || c == '\\' {
            out.append("\\");
            proof {
                reveal_strlit("\\");
                assert("\\"@ =~= seq!['\\']);
            }
        }
        let piece = s.substring_char(i, i + 1);
        out.append(piece);
        proof {
            assert(piece@ =~= seq![s@[i as int]]);
            lemma_esc_push(s@.subrange(0, i as int), s@[i as int]);
            assert(s@.subrange(0, i + 1) =~= s@.subrange(0, i as int).push(s@[i as int]));
            assert(out@ =~= old(out)@ + esc(s@.subrange(0, i + 1)));
        }
        i = i + 1;
    }
    proof {
        assert(s@.subrange(0, n as int) =~= s@);
    }
}

/// Appends `s` quoted and escaped.
fn append_str_enc(out: &mut String, s: &str)
    ensures
        final(out)@ == old(out)@ + enc_str(s@),
{
    out.append("\"");
    append_escaped(out, s);
    out.append("\"");
    proof {
        reveal_strlit("\"");
        assert("\""@ =~= seq!['"']);
        assert(out@ =~= old(out)@ + enc_str(s@));
    }
}

/// The decimal digit `d` as text.
fn digit_str(d: u64) -> (r: &'static str)
    requires
        d < 10,
    ensures
        r@ == seq![digit_char(d as int)],
{
    proof {
        reveal_strlit("0");
        reveal_strlit("1");
        reveal_strlit("2");
        reveal_strlit("3");
        reveal_strlit("4");
        reveal_strlit("5");
        reveal_strlit("6");
        reveal_strlit("7");
        reveal_strlit("8");
        reveal_strlit("9");
    }
    let r = if d == 0 {
        "0"
    } else if d == 1 {
        "1"
    } else if d == 2 {
        "2"
    } else if d == 3 {
        "3"
    } else if d == 4 {
        "4"
    } else if d == 5 {
        "5"
    } else if d == 6 {
        "6"
    } else if d == 7 {
        "7"
    } else if d == 8 {
        "8"
    } else {
        "9"
    };
    proof {
        assert(r@ =~= seq![digit_char(d as int)]);
    }
    r
}

/// Appends `n` in decimal.
fn append_u64(out: &mut String, n: u64)
    ensures
        final(out)@ == old(out)@ + dec_digits(n as int),
    decreases n,
{
    if n < 10 {
        out.append(digit_str(n));
        proof {
            assert(out@ =~= old(out)@ + dec_digits(n as int));
        }
    } else {
        append_u64(out, n / 10);
        out.append(digit_str(n % 10));
        proof {
            assert(out@ =~= old(out)@ + dec_digits(n as int));
        }
    }
}

/// Appends the members of the binding object.
fn append_tag_pairs(out: &mut String, ps: &Vec<(String, String)>)
    ensures
        final(out)@ == old(out)@ + enc_tag_pairs(state_tags_view(ps@)),
{
    let ghost tv = state_tags_view(ps@);
    let mut i: usize = 0;
    proof {
        assert(tv.subrange(0, 0) =~= Seq::<(Seq<char>, Seq<char>)>::empty());
    }
    while i < ps.len()
        invariant
            0 <= i <= ps@.len(),
            tv == state_tags_view(ps@),
            tv.len() == ps@.len(),
            out@ == old(out)@ + enc_tag_pairs(tv.subrange(0, i as int)),
        decreases ps@.len() - i,
    {
        if i > 0 {
            out.append(",");
            proof {
                reveal_strlit(",");
                assert(","@ =~= seq![',']);
            }
        }
        append_str_enc(out, ps[i].0.as_str());
        out.append(":");
        append_str_enc(out, ps[i].1.as_str());
        proof {
            reveal_strlit(":");
            assert(":"@ =~= seq![':']);
            let pre = tv.subrange(0, i as int);
            let cur = tv.subrange(0, i + 1);
            assert(cur.drop_last() =~= pre);
            assert(cur.last() == tv[i as int]);
            assert(tv[i as int].0 == ps@[i as int].0@ && tv[i as int].1 == ps@[i as int].1@);
            assert(out@ =~= old(out)@ + enc_tag_pairs(cur));
        }
        i = i + 1;
    }
    proof {
        assert(tv.subrange(0, tv.len() as int) =~= tv);
    }
}

/// The bindings as document content.
pub open spec fn state_tags_view(ps: Seq<(String, String)>) -> Seq<(Seq<char>, Seq<char>)> {
    Seq::new(ps.len(), |i: int| (ps[i].0@, ps[i].1@))
}

/// Appends a string array.
fn append_str_array(out: &mut String, ls: &Vec<String>)
    ensures
        final(out)@ == old(out)@ + enc_str_array(ls.deep_view()),
{
    let ghost lv = ls.deep_view();
    out.append("[");
    let ghost mid0 = out@;
    let mut i: usize = 0;
    proof {
        reveal_strlit("[");
        assert("["@ =~= seq!['[']);
        assert(lv.subrange(0, 0) =~= Seq::<Seq<char>>::empty());
        assert(mid0 =~= old(out)@ + seq!['[']);
    }
    while i < ls.len()
        invariant
            0 <= i <= ls@.len(),
            lv == ls.deep_view(),
            lv.len() == ls@.len(),
            out@ == mid0 + enc_str_elems(lv.subrange(0, i as int)),
        decreases ls@.len() - i,
    {
        if i > 0 {
            out.append(",");
            proof {
                reveal_strlit(",");
                assert(","@ =~= seq![',']);
            }
        }
        append_str_enc(out, ls[i].as_str());
        proof {
            let pre = lv.subrange(0, i as int);
            let cur = lv.subrange(0, i + 1);
            assert(cur.drop_last() =~= pre);
            assert(cur.last() == lv[i as int]);
            assert(lv[i as int] == ls@[i as int]@);
            assert(out@ =~= mid0 + enc_str_elems(cur));
        }
        i = i + 1;
    }
    out.append("]");
    proof {
        reveal_strlit("]");
        assert("]"@ =~= seq![']']);
        assert(lv.subrange(0, lv.len() as int) =~= lv);
        assert(out@ =~= old(out)@ + enc_str_array(lv));
    }
}

/// Appends one image record.
fn append_image(out: &mut String, img: &Image)
    ensures
        final(out)@ == old(out)@ + enc_image(img@),
{
    out.append("{\"platform\":{\"architecture\":");
    append_str_enc(out, img.platform.architecture.as_str());
    out.append(",\"os\":");
    append_str_enc(out, img.platform.os.as_str());
    out.append("},\"name\":");
    append_str_enc(out, img.name.as_str());
    out.append(",\"tag\":");
    append_str_enc(out, img.tag.as_str());
    out.append(",\"layers\":");
    append_str_array(out, &img.layers);
    out.append(",\"size\":");
    append_u64(out, img.size);
    out.append("}");
    proof {
        assert(out@ =~= old(out)@ + enc_image(img@));
    }
}

/// Appends the members of the image object.
fn append_image_pairs(out: &mut String, ps: &Vec<(String, Image)>)
    ensures
        final(out)@ == old(out)@ + enc_image_pairs(state_images_view(ps@)),
{
    let ghost pv = state_images_view(ps@);
    let mut i: usize = 0;
    proof {
        assert(pv.subrange(0, 0) =~= Seq::<(Seq<char>, ImageV)>::empty());
    }
    while i < ps.len()
        invariant
            0 <= i <= ps@.len(),
            pv == state_images_view(ps@),
            pv.len() == ps@.len(),
            out@ == old(out)@ + enc_image_pairs(pv.subrange(0, i as int)),
        decreases ps@.len() - i,
    {
        if i > 0 {
            out.append(",");
            proof {
                reveal_strlit(",");
                assert(","@ =~= seq![',']);
            }
        }
        append_str_enc(out, ps[i].0.as_str());
        out.append(":");
        append_image(out, &ps[i].1);
        proof {
            reveal_strlit(":");
            assert(":"@ =~= seq![':']);
            let pre = pv.subrange(0, i as int);
            let cur = pv.subrange(0, i + 1);
            assert(cur.drop_last() =~= pre);
            assert(cur.last() == pv[i as int]);
            assert(pv[i as int].0 == ps@[i as int].0@ && pv[i as int].1 == ps@[i as int].1@);
            assert(out@ =~= old(out)@ + enc_image_pairs(cur));
        }
        i = i + 1;
    }
    proof {
        assert(pv.subrange(0, pv.len() as int) =~= pv);
    }
}

/// The images as document content.
pub open spec fn state_images_view(ps: Seq<(String, Image)>) -> Seq<(Seq<char>, ImageV)> {
    Seq::new(ps.len(), |i: int| (ps[i].0@, ps[i].1@))
}

// ---------------------------------------------------------------------------
// Parsing
// ---------------------------------------------------------------------------
/// `t` stands in `s` at position `i`.
pub open spec fn at(s: Seq<char>, i: int, t: Seq<char>) -> bool {
    0 <= i && i + t.len() <= s.len() && s.subrange(i, i + t.len()) == t
}

/// A text standing somewhere splits into its parts standing in a row.
pub proof fn lemma_at_split(s: Seq<char>, i: int, a: Seq<char>, b: Seq<char>)
    requires
        at(s, i, a + b),
    ensures
        at(s, i, a),
        at(s, i + a.len(), b),
{
    let ab = a + b;
    assert forall|k: int| 0 <= k < ab.len() implies s[i + k] == ab[k] by {
        assert(s.subrange(i, i + ab.len())[k] == ab[k]);
    }
    assert(s.subrange(i, i + a.len()) =~= a);
    assert forall|k: int| 0 <= k < b.len() implies s.subrange(
        i + a.len(),
        i + a.len() + b.len(),
    )[k] == b[k] by {
        assert(s[i + (a.len() + k)] == ab[a.len() + k]);
        assert(ab[a.len() + k] == b[k]);
    }
    assert(s.subrange(i + a.len(), i + a.len() + b.len()) =~= b);
}

/// Two texts standing in a row stand there together.
pub proof fn lemma_at_join(s: Seq<char>, i: int, a: Seq<char>, b: Seq<char>)
    requires
        at(s, i, a),
        at(s, i + a.len(), b),
    ensures
        at(s, i, a + b),
{
    let ab = a + b;
    assert forall|k: int| 0 <= k < ab.len() implies s.subrange(i, i + ab.len())[k] == ab[k] by {
        assert(s.subrange(i, i + ab.len())[k] == s[i + k]);
        if k < a.len() {
            assert(s.subrange(i, i + a.len())[k] == a[k]);
        } else {
            assert(s.subrange(i + a.len(), i + a.len() + b.len())[k - a.len()] == b[k - a.len()]);
        }
    }
    assert(s.subrange(i, i + ab.len()) =~= ab);
}

/// Expects the literal `lit` at `i`; the position after it on success.
pub open spec fn expect(s: Seq<char>, i: int, lit: Seq<char>) -> Option<int> {
    if at(s, i, lit) {
        Some(i + lit.len())
    } else {
        None
    }
}

/// Reads a string body up to its closing quote, undoing the escapes.
pub open spec fn parse_str_body(s: Seq<char>, i: int) -> Option<(Seq<char>, int)>
    decreases s.len() - i,
{
    if i < 0 || i >= s.len() {
        None
    } else if s[i] == '"' {
        Some((Seq::empty(), i + 1))
    } else if s[i] == '\\' {
        if i + 1 < s.len() {
            match parse_str_body(s, i + 2) {
                Some((v, n)) => Some((seq![s[i + 1]] + v, n)),
                None => None,
            }
        } else {
            None
        }
    } else {
        match parse_str_body(s, i + 1) {
            Some((v, n)) => Some((seq![s[i]] + v, n)),
            None => None,
        }
    }
}

/// Reads a quoted string.
pub open spec fn parse_string(s: Seq<char>, i: int) -> Option<(Seq<char>, int)> {
    if 0 <= i < s.len() && s[i] == '"' {
        parse_str_body(s, i + 1)
    } else {
        None
    }
}

/// What a digit character stands for; a negative answer for any other.
pub open spec fn digit_val(c: char) -> int {
    if c == '0' {
        0
    } else if c == '1' {
        1
    } else if c == '2' {
        2
    } else if c == '3' {
        3
    } else if c == '4' {
        4
    } else if c == '5' {
        5
    } else if c == '6' {
        6
    } else if c == '7' {
        7
    } else if c == '8' {
        8
    } else if c == '9' {
        9
    } else {
        -1
    }
}

/// Whether `c` is a decimal digit.
pub open spec fn is_digit(c: char) -> bool {
    digit_val(c) >= 0
}

/// Reads digits onto `acc` until the first non-digit.
pub open spec fn parse_num_body(s: Seq<char>, i: int, acc: int) -> (int, int)
    decreases s.len() - i,
{
    if 0 <= i < s.len() && is_digit(s[i]) {
        parse_num_body(s, i + 1, acc * 10 + digit_val(s[i]))
    } else {
        (acc, i)
    }
}

/// Reads a number: at least one digit, up to the first non-digit.
pub open spec fn parse_u64(s: Seq<char>, i: int) -> Option<(int, int)> {
    if 0 <= i < s.len() && is_digit(s[i]) {
        Some(parse_num_body(s, i, 0))
    } else {
        None
    }
}

/// An encoded string body followed by its closing quote parses back to the
/// string.
pub proof fn lemma_parse_body_esc(s: Seq<char>, i: int, v: Seq<char>)
    requires
        at(s, i, esc(v) + seq!['"']),
    ensures
        parse_str_body(s, i) == Some((v, i + esc(v).len() + 1)),
    decreases v.len(),
{
    let t = esc(v) + seq!['"'];
    if v.len() == 0 {
        assert(esc(v) =~= Seq::<char>::empty());
        assert(s[i] == t[0]);
        assert(t[0] == '"');
        assert(parse_str_body(s, i) == Some((Seq::<char>::empty(), i + 1)));
        assert(v =~= Seq::<char>::empty());
    } else {
        let c = v[0];
        let v2 = v.drop_first();
        let head: Seq<char> = if c == '"' || c == '\\' {
            seq!['\\', c]
        } else {
            seq![c]
        };
        assert(esc(v) == head + esc(v2));
        assert(t =~= head + (esc(v2) + seq!['"']));
        lemma_at_split(s, i, head, esc(v2) + seq!['"']);
        if c == '"' || c == '\\' {
            assert(s.subrange(i, i + 2)[0] == s[i] && s.subrange(i, i + 2)[1] == s[i + 1]);
            assert(s[i] == '\\' && s[i + 1] == c);
            lemma_parse_body_esc(s, i + 2, v2);
            assert(seq![s[i + 1]] + v2 =~= v);
        } else {
            assert(s.subrange(i, i + 1)[0] == s[i]);
            assert(s[i] == c);
            lemma_parse_body_esc(s, i + 1, v2);
            assert(seq![s[i]] + v2 =~= v);
        }
    }
}

/// An encoded string parses back to its value.
pub proof fn lemma_parse_string_enc(s: Seq<char>, i: int, v: Seq<char>)
    requires
        at(s, i, enc_str(v)),
    ensures
        parse_string(s, i) == Some((v, i + enc_str(v).len())),
{
    assert(enc_str(v) =~= seq!['"'] + (esc(v) + seq!['"']));
    lemma_at_split(s, i, seq!['"'], esc(v) + seq!['"']);
    assert(s.subrange(i, i + 1)[0] == s[i]);
    assert(s[i] == '"');
    lemma_parse_body_esc(s, i + 1, v);
}

/// Every character a number writes is a digit.
pub proof fn lemma_dec_digits_are_digits(n: int)
    requires
        n >= 0,
    ensures
        dec_digits(n).len() >= 1,
        forall|k: int| 0 <= k < dec_digits(n).len() ==> is_digit(#[trigger] dec_digits(n)[k]),
    decreases n,
{
    if n < 10 {
        assert(is_digit(dec_digits(n)[0]));
    } else {
        lemma_dec_digits_are_digits(n / 10);
        assert forall|k: int| 0 <= k < dec_digits(n).len() implies is_digit(
            #[trigger] dec_digits(n)[k],
        ) by {
            if k < dec_digits(n / 10).len() {
                assert(dec_digits(n)[k] == dec_digits(n / 10)[k]);
            } else {
                assert(dec_digits(n)[k] == digit_char(n % 10));
            }
        }
    }
}

/// What a digit sequence reads onto `acc`.
pub open spec fn seq_digits_val(ds: Seq<char>, acc: int) -> int
    decreases ds.len(),
{
    if ds.len() == 0 {
        acc
    } else {
        seq_digits_val(ds.drop_first(), acc * 10 + digit_val(ds[0]))
    }
}

/// Reading one more digit multiplies the value by ten and adds it.
pub proof fn lemma_seq_digits_val_push(ds: Seq<char>, c: char, acc: int)
    ensures
        seq_digits_val(ds.push(c), acc) == seq_digits_val(ds, acc) * 10 + digit_val(c),
    decreases ds.len(),
{
    let e = ds.push(c);
    if ds.len() == 0 {
        assert(e.drop_first() =~= Seq::<char>::empty());
        assert(e[0] == c);
        assert(seq_digits_val(Seq::<char>::empty(), acc * 10 + digit_val(c)) == acc * 10
            + digit_val(c));
        assert(seq_digits_val(e, acc) == acc * 10 + digit_val(c));
        assert(seq_digits_val(ds, acc) == acc);
    } else {
        assert(e.drop_first() =~= ds.drop_first().push(c));
        assert(e[0] == ds[0]);
        lemma_seq_digits_val_push(ds.drop_first(), c, acc * 10 + digit_val(ds[0]));
        assert(seq_digits_val(e, acc) == seq_digits_val(
            ds.drop_first().push(c),
            acc * 10 + digit_val(ds[0]),
        ));
        assert(seq_digits_val(ds, acc) == seq_digits_val(
            ds.drop_first(),
            acc * 10 + digit_val(ds[0]),
        ));
    }
}

/// A written number reads back to itself.
pub proof fn lemma_dec_digits_val(n: int)
    requires
        n >= 0,
    ensures
        seq_digits_val(dec_digits(n), 0) == n,
    decreases n,
{
    if n < 10 {
        assert(digit_val(digit_char(n)) == n);
        assert(dec_digits(n).drop_first() =~= Seq::<char>::empty());
        assert(seq_digits_val(Seq::<char>::empty(), 0 * 10 + digit_val(dec_digits(n)[0])) == 0 * 10
            + digit_val(dec_digits(n)[0]));
    } else {
        lemma_dec_digits_val(n / 10);
        lemma_seq_digits_val_push(dec_digits(n / 10), digit_char(n % 10), 0);
        assert(digit_val(digit_char(n % 10)) == n % 10);
        vstd::arithmetic::div_mod::lemma_fundamental_div_mod(n, 10);
    }
}

/// The number body stops at the first non-digit with the digits' value.
pub proof fn lemma_parse_num_seq(s: Seq<char>, i: int, m: int, acc: int)
    requires
        0 <= i,
        m >= 0,
        i + m < s.len(),
        forall|k: int| i <= k < i + m ==> is_digit(s[k]),
        !is_digit(s[i + m]),
    ensures
        parse_num_body(s, i, acc) == (seq_digits_val(s.subrange(i, i + m), acc), i + m),
    decreases m,
{
    let ds = s.subrange(i, i + m);
    if m == 0 {
        assert(ds =~= Seq::<char>::empty());
    } else {
        assert(is_digit(s[i]));
        assert(ds[0] == s[i]);
        lemma_parse_num_seq(s, i + 1, m - 1, acc * 10 + digit_val(s[i]));
        assert(ds.drop_first() =~= s.subrange(i + 1, i + m));
    }
}

/// An encoded number followed by a non-digit parses back to its value.
pub proof fn lemma_parse_u64_enc(s: Seq<char>, i: int, n: u64)
    requires
        at(s, i, dec_digits(n as int)),
        i + dec_digits(n as int).len() < s.len(),
        !is_digit(s[i + dec_digits(n as int).len()]),
    ensures
        parse_u64(s, i) == Some((n as int, i + dec_digits(n as int).len())),
{
    let ds = dec_digits(n as int);
    lemma_dec_digits_are_digits(n as int);
    assert forall|k: int| i <= k < i + ds.len() implies is_digit(s[k]) by {
        assert(s[k] == ds[k - i]);
    }
    assert(s[i] == ds[0]);
    lemma_parse_num_seq(s, i, ds.len() as int, 0);
    assert(s.subrange(i, i + ds.len()) == ds);
    lemma_dec_digits_val(n as int);
}

/// Reads the members of the binding object and its closing brace.
pub open spec fn parse_tag_pairs(s: Seq<char>, i: int, fuel: nat) -> Option<
    (Seq<(Seq<char>, Seq<char>)>, int),
>
    decreases fuel,
{
    if fuel == 0 {
        None
    } else {
        match parse_string(s, i) {
            None => None,
            Some((k, n1)) => match expect(s, n1, seq![':']) {
                None => None,
                Some(n2) => match parse_string(s, n2) {
                    None => None,
                    Some((v, n3)) => if 0 <= n3 < s.len() && s[n3] == ',' {
                        match parse_tag_pairs(s, n3 + 1, (fuel - 1) as nat) {
                            None => None,
                            Some((rest, n4)) => Some((seq![(k, v)] + rest, n4)),
                        }
                    } else if 0 <= n3 < s.len() && s[n3] == '}' {
                        Some((seq![(k, v)], n3 + 1))
                    } else {
                        None
                    },
                },
            },
        }
    }
}

/// Reads a binding object body: empty, or its members.
pub open spec fn parse_tag_members(s: Seq<char>, i: int) -> Option<
    (Seq<(Seq<char>, Seq<char>)>, int),
> {
    if 0 <= i < s.len() && s[i] == '}' {
        Some((Seq::empty(), i + 1))
    } else {
        parse_tag_pairs(s, i, s.len() as nat)
    }
}

/// Reads the elements of a string array and its closing bracket.
pub open spec fn parse_str_elems(s: Seq<char>, i: int, fuel: nat) -> Option<(Seq<Seq<char>>, int)>
    decreases fuel,
{
    if fuel == 0 {
        None
    } else {
        match parse_string(s, i) {
            None => None,
            Some((v, n1)) => if 0 <= n1 < s.len() && s[n1] == ',' {
                match parse_str_elems(s, n1 + 1, (fuel - 1) as nat) {
                    None => None,
                    Some((rest, n2)) => Some((seq![v] + rest, n2)),
                }
            } else if 0 <= n1 < s.len() && s[n1] == ']' {
                Some((seq![v], n1 + 1))
            } else {
                None
            },
        }
    }
}

/// Reads a string array.
pub open spec fn parse_str_arr(s: Seq<char>, i: int) -> Option<(Seq<Seq<char>>, int)> {
    if 0 <= i && i + 1 < s.len() && s[i] == '[' {
        if s[i + 1] == ']' {
            Some((Seq::empty(), i + 2))
        } else {
            parse_str_elems(s, i + 1, s.len() as nat)
        }
    } else {
        None
    }
}

/// Reads one image record.
pub open spec fn parse_image(s: Seq<char>, i: int) -> Option<(ImageV, int)> {
    match expect(s, i, "{\"platform\":{\"architecture\":"@) {
        None => None,
        Some(n1) => match parse_string(s, n1) {
            None => None,
            Some((arch, n2)) => match expect(s, n2, ",\"os\":"@) {
                None => None,
                Some(n3) => match parse_string(s, n3) {
                    None => None,
                    Some((os, n4)) => match expect(s, n4, "},\"name\":"@) {
                        None => None,
                        Some(n5) => match parse_string(s, n5) {
                            None => None,
                            Some((name, n6)) => match expect(s, n6, ",\"tag\":"@) {
                                None => None,
                                Some(n7) => match parse_string(s, n7) {
                                    None => None,
                                    Some((tag, n8)) => match expect(s, n8, ",\"layers\":"@) {
                                        None => None,
                                        Some(n9) => match parse_str_arr(s, n9) {
                                            None => None,
                                            Some((layers, n10)) => match expect(
                                                s,
                                                n10,
                                                ",\"size\":"@,
                                            ) {
                                                None => None,
                                                Some(n11) => match parse_u64(s, n11) {
                                                    None => None,
                                                    Some((size, n12)) => match expect(
                                                        s,
                                                        n12,
                                                        "}"@,
                                                    ) {
                                                        None => None,
                                                        Some(n13) => if 0 <= size <= u64::MAX {
                                                            Some(
                                                                (
                                                                    ImageV {
                                                                        platform: PlatformV {
                                                                            architecture: arch,
                                                                            os: os,
                                                                        },
                                                                        name: name,
                                                                        tag: tag,
                                                                        layers: layers,
                                                                        size: size as u64,
                                                                    },
                                                                    n13,
                                                                ),
                                                            )
                                                        } else {
                                                            None
                                                        },
                                                    },
                                                },
                                            },
                                        },
                                    },
                                },
                            },
                        },
                    },
                },
            },
        },
    }
}

/// Reads the members of the image object and its closing brace.
pub open spec fn parse_image_pairs(s: Seq<char>, i: int, fuel: nat) -> Option<
    (Seq<(Seq<char>, ImageV)>, int),
>
    decreases fuel,
{
    if fuel == 0 {
        None
    } else {
        match parse_string(s, i) {
            None => None,
            Some((k, n1)) => match expect(s, n1, seq![':']) {
                None => None,
                Some(n2) => match parse_image(s, n2) {
                    None => None,
                    Some((v, n3)) => if 0 <= n3 < s.len() && s[n3] == ',' {
                        match parse_image_pairs(s, n3 + 1, (fuel - 1) as nat) {
                            None => None,
                            Some((rest, n4)) => Some((seq![(k, v)] + rest, n4)),
                        }
                    } else if 0 <= n3 < s.len() && s[n3] == '}' {
                        Some((seq![(k, v)], n3 + 1))
                    } else {
                        None
                    },
                },
            },
        }
    }
}

/// Reads an image object body: empty, or its members.
pub open spec fn parse_image_members(s: Seq<char>, i: int) -> Option<(Seq<(Seq<char>, ImageV)>, int)> {
    if 0 <= i < s.len() && s[i] == '}' {
        Some((Seq::empty(), i + 1))
    } else {
        parse_image_pairs(s, i, s.len() as nat)
    }
}

/// Reads a whole document; the content when the text is exactly one document.
pub open spec fn parse_state_spec(s: Seq<char>) -> Option<StateV> {
    match expect(s, 0, "{\"tagged_images\":{"@) {
        None => None,
        Some(n1) => match parse_tag_members(s, n1) {
            None => None,
            Some((tags, n2)) => match expect(s, n2, ",\"images\":{"@) {
                None => None,
                Some(n3) => match parse_image_members(s, n3) {
                    None => None,
                    Some((images, n4)) => match expect(s, n4, ",\"layers\":"@) {
                        None => None,
                        Some(n5) => match parse_str_arr(s, n5) {
                            None => None,
                            Some((layers, n6)) => match expect(s, n6, "}"@) {
                                None => None,
                                Some(n7) => if n7 == s.len() {
                                    Some(StateV { tags, images, layers })
                                } else {
                                    None
                                },
                            },
                        },
                    },
                },
            },
        },
    }
}

/// Expects the literal at `i`; the position after it on success.
fn expect_lit(s: &str, i: usize, lit: &str) -> (r: Option<usize>)
    ensures
        match r {
            Some(n) => expect(s@, i as int, lit@) == Some(n as int),
            None => expect(s@, i as int, lit@) is None,
        },
{
    let n = s.unicode_len();
    let m = lit.unicode_len();
    if i <= n && m <= n - i {
        let sub = s.substring_char(i, i + m);
        if sub.to_owned() == lit.to_owned() {
            Some(i + m)
        } else {
            None
        }
    } else {
        None
    }
}

/// Reads a string body up to its closing quote, undoing the escapes.
fn parse_str_body_x(s: &str, i: usize) -> (r: Option<(String, usize)>)
    ensures
        match r {
            Some((v, n)) => parse_str_body(s@, i as int) == Some((v@, n as int)),
            None => parse_str_body(s@, i as int) is None,
        },
    decreases s@.len() - i,
{
    let len = s.unicode_len();
    if i >= len {
        return None;
    }
    let c = s.get_char(i);
    if c == '"' {
        Some((String::new(), i + 1))
    } else if c == '\\' {
        if i + 1 < len {
            match parse_str_body_x(s, i + 2) {
                Some((rest, n)) => {
                    let mut out = s.substring_char(i + 1, i + 2).to_owned();
                    out.append(rest.as_str());
                    proof {
                        assert(out@ =~= seq![s@[i + 1]] + rest@);
                    }
                    Some((out, n))
                },
                None => None,
            }
        } else {
            None
        }
    } else {
        match parse_str_body_x(s, i + 1) {
            Some((rest, n)) => {
                let mut out = s.substring_char(i, i + 1).to_owned();
                out.append(rest.as_str());
                proof {
                    assert(out@ =~= seq![s@[i as int]] + rest@);
                }
                Some((out, n))
            },
            None => None,
        }
    }
}

/// Reads a quoted string.
fn parse_string_x(s: &str, i: usize) -> (r: Option<(String, usize)>)
    ensures
        match r {
            Some((v, n)) => parse_string(s@, i as int) == Some((v@, n as int)),
            None => parse_string(s@, i as int) is None,
        },
{
    let len = s.unicode_len();
    if i < len && s.get_char(i) == '"' {
        parse_str_body_x(s, i + 1)
    } else {
        None
    }
}

/// What a digit character stands for.
fn char_digit(c: char) -> (r: Option<u64>)
    ensures
        match r {
            Some(d) => digit_val(c) == d as int,
            None => digit_val(c) < 0,
        },
{
    if c == '0' {
        Some(0)
    } else if c == '1' {
        Some(1)
    } else if c == '2' {
        Some(2)
    } else if c == '3' {
        Some(3)
    } else if c == '4' {
        Some(4)
    } else if c == '5' {
        Some(5)
    } else if c == '6' {
        Some(6)
    } else if c == '7' {
        Some(7)
    } else if c == '8' {
        Some(8)
    } else if c == '9' {
        Some(9)
    } else {
        None
    }
}

/// Reading digits never shrinks the value.
proof fn lemma_parse_num_lb(s: Seq<char>, i: int, acc: int)
    requires
        acc >= 0,
    ensures
        parse_num_body(s, i, acc).0 >= acc,
    decreases s.len() - i,
{
    if 0 <= i < s.len() && is_digit(s[i]) {
        lemma_parse_num_lb(s, i + 1, acc * 10 + digit_val(s[i]));
    }
}

/// Reads digits onto `acc`; nothing when the value outgrows its type.
fn parse_num_body_x(s: &str, i: usize, acc: u64) -> (r: Option<(u64, usize)>)
    ensures
        match r {
            Some((v, n)) => parse_num_body(s@, i as int, acc as int) == (v as int, n as int),
            None => parse_num_body(s@, i as int, acc as int).0 > u64::MAX,
        },
    decreases s@.len() - i,
{
    let len = s.unicode_len();
    if i < len {
        match char_digit(s.get_char(i)) {
            Some(d) => {
                if acc > (u64::MAX - d) / 10 {
                    proof {
                        vstd::arithmetic::div_mod::lemma_fundamental_div_mod(
                            u64::MAX - d as int,
                            10,
                        );
                        assert(acc * 10 + d > u64::MAX) by (nonlinear_arith)
                            requires
                                acc as int > (u64::MAX - d as int) / 10,
                                0 <= d < 10,
                                (u64::MAX - d as int) == 10 * ((u64::MAX - d as int) / 10) + (
                                u64::MAX - d as int) % 10,
                                0 <= (u64::MAX - d as int) % 10 < 10,
                        ;
                        lemma_parse_num_lb(s@, i + 1, acc as int * 10 + d as int);
                    }
                    None
                } else {
                    proof {
                        vstd::arithmetic::div_mod::lemma_fundamental_div_mod(
                            u64::MAX - d as int,
                            10,
                        );
                        assert(acc * 10 + d <= u64::MAX) by (nonlinear_arith)
                            requires
                                acc as int <= (u64::MAX - d as int) / 10,
                                0 <= acc,
                                0 <= d < 10,
                                (u64::MAX - d as int) == 10 * ((u64::MAX - d as int) / 10) + (
                                u64::MAX - d as int) % 10,
                                0 <= (u64::MAX - d as int) % 10 < 10,
                        ;
                    }
                    parse_num_body_x(s, i + 1, acc * 10 + d)
                }
            },
            None => Some((acc, i)),
        }
    } else {
        Some((acc, i))
    }
}

/// Reads a number; nothing when it does not fit.
fn parse_u64_x(s: &str, i: usize) -> (r: Option<(u64, usize)>)
    ensures
        match r {
            Some((v, n)) => parse_u64(s@, i as int) == Some((v as int, n as int)),
            None => match parse_u64(s@, i as int) {
                Some(p) => p.0 > u64::MAX,
                None => true,
            },
        },
{
    let len = s.unicode_len();
    if i < len {
        match char_digit(s.get_char(i)) {
            Some(_) => parse_num_body_x(s, i, 0),
            None => None,
        }
    } else {
        None
    }
}

/// Reads the members of the binding object and its closing brace.
fn parse_tag_pairs_x(s: &str, i: usize, fuel: usize) -> (r: Option<(Vec<(String, String)>, usize)>)
    ensures
        match r {
            Some((ps, n)) => parse_tag_pairs(s@, i as int, fuel as nat) == Some(
                (state_tags_view(ps@), n as int),
            ),
            None => parse_tag_pairs(s@, i as int, fuel as nat) is None,
        },
    decreases fuel,
{
    if fuel == 0 {
        return None;
    }
    let len = s.unicode_len();
    let (k, n1) = match parse_string_x(s, i) {
        Some(p) => p,
        None => {
            return None;
        },
    };
    let n2 = match expect_lit(s, n1, ":") {
        Some(n) => n,
        None => {
            proof {
                reveal_strlit(":");
                assert(":"@ =~= seq![':']);
            }
            return None;
        },
    };
    proof {
        reveal_strlit(":");
        assert(":"@ =~= seq![':']);
    }
    let (v, n3) = match parse_string_x(s, n2) {
        Some(p) => p,
        None => {
            return None;
        },
    };
    if n3 < len && s.get_char(n3) == ',' {
        match parse_tag_pairs_x(s, n3 + 1, fuel - 1) {
            Some((mut rest, n4)) => {
                let ghost rest0 = rest@;
                rest.insert(0, (k, v));
                proof {
                    assert(rest@ =~= seq![(k, v)] + rest0);
                    assert(state_tags_view(rest@) =~= seq![(k@, v@)] + state_tags_view(rest0));
                }
                Some((rest, n4))
            },
            None => None,
        }
    } else if n3 < len && s.get_char(n3) == '}' {
        let mut out: Vec<(String, String)> = Vec::new();
        out.push((k, v));
        proof {
            assert(state_tags_view(out@) =~= seq![(out@[0].0@, out@[0].1@)]);
        }
        Some((out, n3 + 1))
    } else {
        None
    }
}

/// Reads a binding object body: empty, or its members.
fn parse_tag_members_x(s: &str, i: usize) -> (r: Option<(Vec<(String, String)>, usize)>)
    ensures
        match r {
            Some((ps, n)) => parse_tag_members(s@, i as int) == Some(
                (state_tags_view(ps@), n as int),
            ),
            None => parse_tag_members(s@, i as int) is None,
        },
{
    let len = s.unicode_len();
    if i < len && s.get_char(i) == '}' {
        let out: Vec<(String, String)> = Vec::new();
        proof {
            assert(state_tags_view(out@) =~= Seq::<(Seq<char>, Seq<char>)>::empty());
        }
        Some((out, i + 1))
    } else {
        parse_tag_pairs_x(s, i, len)
    }
}

/// Reads the elements of a string array and its closing bracket.
fn parse_str_elems_x(s: &str, i: usize, fuel: usize) -> (r: Option<(Vec<String>, usize)>)
    ensures
        match r {
            Some((ls, n)) => parse_str_elems(s@, i as int, fuel as nat) == Some(
                (ls.deep_view(), n as int),
            ),
            None => parse_str_elems(s@, i as int, fuel as nat) is None,
        },
    decreases fuel,
{
    if fuel == 0 {
        return None;
    }
    let len = s.unicode_len();
    let (v, n1) = match parse_string_x(s, i) {
        Some(p) => p,
        None => {
            return None;
        },
    };
    if n1 < len && s.get_char(n1) == ',' {
        match parse_str_elems_x(s, n1 + 1, fuel - 1) {
            Some((mut rest, n2)) => {
                let ghost rest0 = rest.deep_view();
                rest.insert(0, v);
                proof {
                    assert(rest.deep_view() =~= seq![rest@[0]@] + rest0);
                }
                Some((rest, n2))
            },
            None => None,
        }
    } else if n1 < len && s.get_char(n1) == ']' {
        let mut out: Vec<String> = Vec::new();
        out.push(v);
        proof {
            assert(out.deep_view() =~= seq![out@[0]@]);
        }
        Some((out, n1 + 1))
    } else {
        None
    }
}

/// Reads a string array.
fn parse_str_arr_x(s: &str, i: usize) -> (r: Option<(Vec<String>, usize)>)
    ensures
        match r {
            Some((ls, n)) => parse_str_arr(s@, i as int) == Some((ls.deep_view(), n as int)),
            None => parse_str_arr(s@, i as int) is None,
        },
{
    let len = s.unicode_len();
    if i < len && i + 1 < len && s.get_char(i) == '[' {
        if s.get_char(i + 1) == ']' {
            let out: Vec<String> = Vec::new();
            proof {
                assert(out.deep_view() =~= Seq::<Seq<char>>::empty());
            }
            Some((out, i + 2))
        } else {
            parse_str_elems_x(s, i + 1, len)
        }
    } else {
        None
    }
}

/// Reads one image record.
fn parse_image_x(s: &str, i: usize) -> (r: Option<(Image, usize)>)
    ensures
        match r {
            Some((img, n)) => parse_image(s@, i as int) == Some((img@, n as int)),
            None => parse_image(s@, i as int) is None,
        },
{
    let n1 = match expect_lit(s, i, "{\"platform\":{\"architecture\":") {
        Some(n) => n,
        None => {
            return None;
        },
    };
    let (arch, n2) = match parse_string_x(s, n1) {
        Some(p) => p,
        None => {
            return None;
        },
    };
    let n3 = match expect_lit(s, n2, ",\"os\":") {
        Some(n) => n,
        None => {
            return None;
        },
    };
    let (os, n4) = match parse_string_x(s, n3) {
        Some(p) => p,
        None => {
            return None;
        },
    };
    let n5 = match expect_lit(s, n4, "},\"name\":") {
        Some(n) => n,
        None => {
            return None;
        },
    };
    let (name, n6) = match parse_string_x(s, n5) {
        Some(p) => p,
        None => {
            return None;
        },
    };
    let n7 = match expect_lit(s, n6, ",\"tag\":") {
        Some(n) => n,
        None => {
            return None;
        },
    };
    let (tag, n8) = match parse_string_x(s, n7) {
        Some(p) => p,
        None => {
            return None;
        },
    };
    let n9 = match expect_lit(s, n8, ",\"layers\":") {
        Some(n) => n,
        None => {
            return None;
        },
    };
    let (layers, n10) = match parse_str_arr_x(s, n9) {
        Some(p) => p,
        None => {
            return None;
        },
    };
    let n11 = match expect_lit(s, n10, ",\"size\":") {
        Some(n) => n,
        None => {
            return None;
        },
    };
    let (size, n12) = match parse_u64_x(s, n11) {
        Some(p) => p,
        None => {
            return None;
        },
    };
    let n13 = match expect_lit(s, n12, "}") {
        Some(n) => n,
        None => {
            return None;
        },
    };
    let img = Image { platform: Platform { architecture: arch, os }, name, tag, layers, size };
    Some((img, n13))
}

/// Reads the members of the image object and its closing brace.
fn parse_image_pairs_x(s: &str, i: usize, fuel: usize) -> (r: Option<
    (Vec<(String, Image)>, usize),
>)
    ensures
        match r {
            Some((ps, n)) => parse_image_pairs(s@, i as int, fuel as nat) == Some(
                (state_images_view(ps@), n as int),
            ),
            None => parse_image_pairs(s@, i as int, fuel as nat) is None,
        },
    decreases fuel,
{
    if fuel == 0 {
        return None;
    }
    let len = s.unicode_len();
    let (k, n1) = match parse_string_x(s, i) {
        Some(p) => p,
        None => {
            return None;
        },
    };
    let n2 = match expect_lit(s, n1, ":") {
        Some(n) => n,
        None => {
            proof {
                reveal_strlit(":");
                assert(":"@ =~= seq![':']);
            }
            return None;
        },
    };
    proof {
        reveal_strlit(":");
        assert(":"@ =~= seq![':']);
    }
    let (v, n3) = match parse_image_x(s, n2) {
        Some(p) => p,
        None => {
            return None;
        },
    };
    if n3 < len && s.get_char(n3) == ',' {
        match parse_image_pairs_x(s, n3 + 1, fuel - 1) {
            Some((mut rest, n4)) => {
                let ghost rest0 = rest@;
                rest.insert(0, (k, v));
                proof {
                    assert(rest@ =~= seq![(k, v)] + rest0);
                    assert(state_images_view(rest@) =~= seq![(k@, v@)] + state_images_view(rest0));
                }
                Some((rest, n4))
            },
            None => None,
        }
    } else if n3 < len && s.get_char(n3) == '}' {
        let mut out: Vec<(String, Image)> = Vec::new();
        out.push((k, v));
        proof {
            assert(state_images_view(out@) =~= seq![(out@[0].0@, out@[0].1@)]);
        }
        Some((out, n3 + 1))
    } else {
        None
    }
}

/// Reads an image object body: empty, or its members.
fn parse_image_members_x(s: &str, i: usize) -> (r: Option<(Vec<(String, Image)>, usize)>)
    ensures
        match r {
            Some((ps, n)) => parse_image_members(s@, i as int) == Some(
                (state_images_view(ps@), n as int),
            ),
            None => parse_image_members(s@, i as int) is None,
        },
{
    let len = s.unicode_len();
    if i < len && s.get_char(i) == '}' {
        let out: Vec<(String, Image)> = Vec::new();
        proof {
            assert(state_images_view(out@) =~= Seq::<(Seq<char>, ImageV)>::empty());
        }
        Some((out, i + 1))
    } else {
        parse_image_pairs_x(s, i, len)
    }
}

/// Loads a persisted document: the state it holds, well-formed; fails with
/// the format error when the text is not exactly one document or names a key
/// twice.
pub fn parse_state(s: &str) -> (r: Result<ApplicationState, Error>)
    ensures
        match r {
            Ok(st) => {
                &&& parse_state_spec(s@) matches Some(v) && state_view(st) == v
                &&& st.wf()
            },
            Err(e) => {
                &&& e matches Error::FormatError
                &&& match parse_state_spec(s@) {
                    Some(v) => !state_v_wf(v),
                    None => true,
                }
            },
        },
{
    let len = s.unicode_len();
    let n1 = match expect_lit(s, 0, "{\"tagged_images\":{") {
        Some(n) => n,
        None => {
            return Err(Error::FormatError);
        },
    };
    let (tags, n2) = match parse_tag_members_x(s, n1) {
        Some(p) => p,
        None => {
            return Err(Error::FormatError);
        },
    };
    let n3 = match expect_lit(s, n2, ",\"images\":{") {
        Some(n) => n,
        None => {
            return Err(Error::FormatError);
        },
    };
    let (images, n4) = match parse_image_members_x(s, n3) {
        Some(p) => p,
        None => {
            return Err(Error::FormatError);
        },
    };
    let n5 = match expect_lit(s, n4, ",\"layers\":") {
        Some(n) => n,
        None => {
            return Err(Error::FormatError);
        },
    };
    let (layers, n6) = match parse_str_arr_x(s, n5) {
        Some(p) => p,
        None => {
            return Err(Error::FormatError);
        },
    };
    let n7 = match expect_lit(s, n6, "}") {
        Some(n) => n,
        None => {
            return Err(Error::FormatError);
        },
    };
    if n7 != len {
        return Err(Error::FormatError);
    }
    let st = ApplicationState { tagged_images: tags, images, layers };
    let ghost v = parse_state_spec(s@)->Some_0;
    proof {
        assert(parse_state_spec(s@) == Some(StateV {
            tags: state_tags_view(st.tagged_images@),
            images: state_images_view(st.images@),
            layers: st.layers.deep_view(),
        }));
        assert(state_view(st) == v);
    }
    if !crate::kv::check_keys_unique(&st.tagged_images) {
        proof {
            let w = choose|a: int, b: int|
                0 <= a < b < st.tagged_images@.len() && (#[trigger] st.tagged_images@[a]).0@ == (
                #[trigger] st.tagged_images@[b]).0@;
            assert(v.tags[w.0].0 == v.tags[w.1].0);
            assert(!state_v_wf(v));
        }
        return Err(Error::FormatError);
    }
    if !crate::kv::check_keys_unique(&st.images) {
        proof {
            let w = choose|a: int, b: int|
                0 <= a < b < st.images@.len() && (#[trigger] st.images@[a]).0@ == (
                #[trigger] st.images@[b]).0@;
            assert(v.images[w.0].0 == v.images[w.1].0);
            assert(!state_v_wf(v));
        }
        return Err(Error::FormatError);
    }
    if !crate::kv::check_strs_unique(&st.layers) {
        proof {
            let w = choose|a: int, b: int|
                0 <= a < b < st.layers@.len() && (#[trigger] st.layers@[a])@ == (
                #[trigger] st.layers@[b])@;
            assert(v.layers[w.0] == v.layers[w.1]);
            assert(!state_v_wf(v));
        }
        return Err(Error::FormatError);
    }
    Ok(st)
}

/// The binding members split off their first member.
pub proof fn lemma_enc_tag_pairs_front(ps: Seq<(Seq<char>, Seq<char>)>)
    requires
        ps.len() >= 1,
    ensures
        ps.len() == 1 ==> enc_tag_pairs(ps) == enc_tag_pair(ps[0]),
        ps.len() > 1 ==> enc_tag_pairs(ps) == enc_tag_pair(ps[0]) + seq![','] + enc_tag_pairs(
            ps.drop_first(),
        ),
    decreases ps.len(),
{
    if ps.len() > 1 {
        let dl = ps.drop_last();
        let df = ps.drop_first();
        lemma_enc_tag_pairs_front(dl);
        assert(dl[0] == ps[0]);
        assert(dl.drop_first() =~= df.drop_last());
        assert(df.last() == ps.last());
        if ps.len() == 2 {
            assert(df[0] == ps[1] && ps.last() == ps[1]);
            assert(enc_tag_pairs(ps) =~= enc_tag_pair(ps[0]) + seq![','] + enc_tag_pairs(df));
        } else {
            assert(enc_tag_pairs(ps) =~= enc_tag_pair(ps[0]) + seq![','] + enc_tag_pairs(df));
        }
    }
}

/// At least one character stands for each binding member.
pub proof fn lemma_enc_tag_pairs_len(ps: Seq<(Seq<char>, Seq<char>)>)
    ensures
        enc_tag_pairs(ps).len() >= ps.len(),
    decreases ps.len(),
{
    if ps.len() > 1 {
        lemma_enc_tag_pairs_len(ps.drop_last());
    }
}

/// Encoded binding members followed by the closing brace parse back.
pub proof fn lemma_parse_tag_pairs_enc(
    s: Seq<char>,
    i: int,
    ps: Seq<(Seq<char>, Seq<char>)>,
    fuel: nat,
)
    requires
        ps.len() >= 1,
        fuel >= ps.len(),
        at(s, i, enc_tag_pairs(ps) + seq!['}']),
    ensures
        parse_tag_pairs(s, i, fuel) == Some((ps, i + enc_tag_pairs(ps).len() + 1)),
    decreases ps.len(),
{
    lemma_enc_tag_pairs_front(ps);
    let k0 = ps[0].0;
    let v0 = ps[0].1;
    if ps.len() == 1 {
        let whole = enc_tag_pairs(ps) + seq!['}'];
        assert(whole =~= enc_str(k0) + (seq![':'] + (enc_str(v0) + seq!['}'])));
        lemma_at_split(s, i, enc_str(k0), seq![':'] + (enc_str(v0) + seq!['}']));
        lemma_parse_string_enc(s, i, k0);
        let n1 = i + enc_str(k0).len();
        lemma_at_split(s, n1, seq![':'], enc_str(v0) + seq!['}']);
        let n2 = n1 + 1;
        lemma_at_split(s, n2, enc_str(v0), seq!['}']);
        lemma_parse_string_enc(s, n2, v0);
        let n3 = n2 + enc_str(v0).len();
        assert(s.subrange(n3, n3 + 1)[0] == s[n3]);
        assert(s[n3] == '}');
        assert(seq![(k0, v0)] =~= ps);
    } else {
        let rest = ps.drop_first();
        let whole = enc_tag_pairs(ps) + seq!['}'];
        assert(whole =~= enc_str(k0) + (seq![':'] + (enc_str(v0) + (seq![','] + (enc_tag_pairs(rest)
            + seq!['}'])))));
        lemma_at_split(
            s,
            i,
            enc_str(k0),
            seq![':'] + (enc_str(v0) + (seq![','] + (enc_tag_pairs(rest) + seq!['}']))),
        );
        lemma_parse_string_enc(s, i, k0);
        let n1 = i + enc_str(k0).len();
        lemma_at_split(s, n1, seq![':'], enc_str(v0) + (seq![','] + (enc_tag_pairs(rest)
            + seq!['}'])));
        let n2 = n1 + 1;
        lemma_at_split(s, n2, enc_str(v0), seq![','] + (enc_tag_pairs(rest) + seq!['}']));
        lemma_parse_string_enc(s, n2, v0);
        let n3 = n2 + enc_str(v0).len();
        lemma_at_split(s, n3, seq![','], enc_tag_pairs(rest) + seq!['}']);
        assert(s.subrange(n3, n3 + 1)[0] == s[n3]);
        assert(s[n3] == ',');
        lemma_parse_tag_pairs_enc(s, n3 + 1, rest, (fuel - 1) as nat);
        assert(seq![(k0, v0)] + rest =~= ps);
    }
}

/// An encoded binding object body parses back.
pub proof fn lemma_parse_tag_members_enc(s: Seq<char>, i: int, ps: Seq<(Seq<char>, Seq<char>)>)
    requires
        at(s, i, enc_tag_pairs(ps) + seq!['}']),
    ensures
        parse_tag_members(s, i) == Some((ps, i + enc_tag_pairs(ps).len() + 1)),
{
    if ps.len() == 0 {
        assert(enc_tag_pairs(ps) + seq!['}'] =~= seq!['}']);
        assert(s.subrange(i, i + 1)[0] == s[i]);
        assert(s[i] == '}');
        assert(ps =~= Seq::<(Seq<char>, Seq<char>)>::empty());
    } else {
        lemma_enc_tag_pairs_front(ps);
        let whole = enc_tag_pairs(ps) + seq!['}'];
        assert(whole[0] == enc_tag_pairs(ps)[0]);
        assert(enc_tag_pairs(ps)[0] == enc_str(ps[0].0)[0]);
        assert(enc_str(ps[0].0)[0] == '"');
        assert(s.subrange(i, i + whole.len())[0] == s[i]);
        assert(s[i] == '"');
        lemma_enc_tag_pairs_len(ps);
        lemma_parse_tag_pairs_enc(s, i, ps, s.len() as nat);
    }
}

/// The array elements split off their first element.
pub proof fn lemma_enc_str_elems_front(ls: Seq<Seq<char>>)
    requires
        ls.len() >= 1,
    ensures
        ls.len() == 1 ==> enc_str_elems(ls) == enc_str(ls[0]),
        ls.len() > 1 ==> enc_str_elems(ls) == enc_str(ls[0]) + seq![','] + enc_str_elems(
            ls.drop_first(),
        ),
    decreases ls.len(),
{
    if ls.len() > 1 {
        let dl = ls.drop_last();
        let df = ls.drop_first();
        lemma_enc_str_elems_front(dl);
        assert(dl[0] == ls[0]);
        assert(dl.drop_first() =~= df.drop_last());
        assert(df.last() == ls.last());
        if ls.len() == 2 {
            assert(df[0] == ls[1] && ls.last() == ls[1]);
            assert(enc_str_elems(ls) =~= enc_str(ls[0]) + seq![','] + enc_str_elems(df));
        } else {
            assert(enc_str_elems(ls) =~= enc_str(ls[0]) + seq![','] + enc_str_elems(df));
        }
    }
}

/// At least one character stands for each array element.
pub proof fn lemma_enc_str_elems_len(ls: Seq<Seq<char>>)
    ensures
        enc_str_elems(ls).len() >= ls.len(),
    decreases ls.len(),
{
    if ls.len() > 1 {
        lemma_enc_str_elems_len(ls.drop_last());
    }
}

/// Encoded array elements followed by the closing bracket parse back.
pub proof fn lemma_parse_str_elems_enc(s: Seq<char>, i: int, ls: Seq<Seq<char>>, fuel: nat)
    requires
        ls.len() >= 1,
        fuel >= ls.len(),
        at(s, i, enc_str_elems(ls) + seq![']']),
    ensures
        parse_str_elems(s, i, fuel) == Some((ls, i + enc_str_elems(ls).len() + 1)),
    decreases ls.len(),
{
    lemma_enc_str_elems_front(ls);
    let v0 = ls[0];
    if ls.len() == 1 {
        let whole = enc_str_elems(ls) + seq![']'];
        assert(whole =~= enc_str(v0) + seq![']']);
        lemma_at_split(s, i, enc_str(v0), seq![']']);
        lemma_parse_string_enc(s, i, v0);
        let n1 = i + enc_str(v0).len();
        assert(s.subrange(n1, n1 + 1)[0] == s[n1]);
        assert(s[n1] == ']');
        assert(seq![v0] =~= ls);
    } else {
        let rest = ls.drop_first();
        let whole = enc_str_elems(ls) + seq![']'];
        assert(whole =~= enc_str(v0) + (seq![','] + (enc_str_elems(rest) + seq![']'])));
        lemma_at_split(s, i, enc_str(v0), seq![','] + (enc_str_elems(rest) + seq![']']));
        lemma_parse_string_enc(s, i, v0);
        let n1 = i + enc_str(v0).len();
        lemma_at_split(s, n1, seq![','], enc_str_elems(rest) + seq![']']);
        assert(s.subrange(n1, n1 + 1)[0] == s[n1]);
        assert(s[n1] == ',');
        lemma_parse_str_elems_enc(s, n1 + 1, rest, (fuel - 1) as nat);
        assert(seq![v0] + rest =~= ls);
    }
}

/// An encoded string array parses back.
pub proof fn lemma_parse_str_arr_enc(s: Seq<char>, i: int, ls: Seq<Seq<char>>)
    requires
        at(s, i, enc_str_array(ls)),
    ensures
        parse_str_arr(s, i) == Some((ls, i + enc_str_array(ls).len())),
{
    let t = enc_str_array(ls);
    assert(t =~= seq!['['] + (enc_str_elems(ls) + seq![']']));
    lemma_at_split(s, i, seq!['['], enc_str_elems(ls) + seq![']']);
    assert(s.subrange(i, i + 1)[0] == s[i]);
    assert(s[i] == '[');
    if ls.len() == 0 {
        assert(enc_str_elems(ls) + seq![']'] =~= seq![']']);
        assert(s.subrange(i + 1, i + 2)[0] == s[i + 1]);
        assert(s[i + 1] == ']');
        assert(ls =~= Seq::<Seq<char>>::empty());
    } else {
        lemma_enc_str_elems_front(ls);
        let body = enc_str_elems(ls) + seq![']'];
        assert(body[0] == enc_str_elems(ls)[0]);
        assert(enc_str_elems(ls)[0] == enc_str(ls[0])[0]);
        assert(enc_str(ls[0])[0] == '"');
        assert(s.subrange(i + 1, i + 1 + body.len())[0] == s[i + 1]);
        assert(s[i + 1] == '"');
        lemma_enc_str_elems_len(ls);
        lemma_parse_str_elems_enc(s, i + 1, ls, s.len() as nat);
    }
}

/// An encoded image record parses back.
pub proof fn lemma_parse_image_enc(s: Seq<char>, i: int, v: ImageV)
    requires
        at(s, i, enc_image(v)),
    ensures
        parse_image(s, i) == Some((v, i + enc_image(v).len())),
{
    let l1 = "{\"platform\":{\"architecture\":"@;
    let l2 = ",\"os\":"@;
    let l3 = "},\"name\":"@;
    let l4 = ",\"tag\":"@;
    let l5 = ",\"layers\":"@;
    let l6 = ",\"size\":"@;
    let l7 = "}"@;
    let ea = enc_str(v.platform.architecture);
    let eo = enc_str(v.platform.os);
    let en = enc_str(v.name);
    let et = enc_str(v.tag);
    let el = enc_str_array(v.layers);
    let ed = dec_digits(v.size as int);
    let t = enc_image(v);
    assert(t =~= l1 + (ea + (l2 + (eo + (l3 + (en + (l4 + (et + (l5 + (el + (l6 + (ed + l7))))))))))));
    lemma_at_split(s, i, l1, ea + (l2 + (eo + (l3 + (en + (l4 + (et + (l5 + (el + (l6 + (ed
        + l7)))))))))));
    let n1 = i + l1.len();
    lemma_at_split(s, n1, ea, l2 + (eo + (l3 + (en + (l4 + (et + (l5 + (el + (l6 + (ed + l7))))))))));
    lemma_parse_string_enc(s, n1, v.platform.architecture);
    let n2 = n1 + ea.len();
    lemma_at_split(s, n2, l2, eo + (l3 + (en + (l4 + (et + (l5 + (el + (l6 + (ed + l7)))))))));
    let n3 = n2 + l2.len();
    lemma_at_split(s, n3, eo, l3 + (en + (l4 + (et + (l5 + (el + (l6 + (ed + l7))))))));
    lemma_parse_string_enc(s, n3, v.platform.os);
    let n4 = n3 + eo.len();
    lemma_at_split(s, n4, l3, en + (l4 + (et + (l5 + (el + (l6 + (ed + l7)))))));
    let n5 = n4 + l3.len();
    lemma_at_split(s, n5, en, l4 + (et + (l5 + (el + (l6 + (ed + l7))))));
    lemma_parse_string_enc(s, n5, v.name);
    let n6 = n5 + en.len();
    lemma_at_split(s, n6, l4, et + (l5 + (el + (l6 + (ed + l7)))));
    let n7 = n6 + l4.len();
    lemma_at_split(s, n7, et, l5 + (el + (l6 + (ed + l7))));
    lemma_parse_string_enc(s, n7, v.tag);
    let n8 = n7 + et.len();
    lemma_at_split(s, n8, l5, el + (l6 + (ed + l7)));
    let n9 = n8 + l5.len();
    lemma_at_split(s, n9, el, l6 + (ed + l7));
    lemma_parse_str_arr_enc(s, n9, v.layers);
    let n10 = n9 + el.len();
    lemma_at_split(s, n10, l6, ed + l7);
    let n11 = n10 + l6.len();
    lemma_at_split(s, n11, ed, l7);
    let n12 = n11 + ed.len();
    proof_decoded_brace(s, n12);
    lemma_parse_u64_enc(s, n11, v.size);
    assert(v.platform == PlatformV { architecture: v.platform.architecture, os: v.platform.os });
    assert(v == ImageV {
        platform: v.platform,
        name: v.name,
        tag: v.tag,
        layers: v.layers,
        size: v.size,
    });
}

/// A closing brace stands here: not a digit.
proof fn proof_decoded_brace(s: Seq<char>, i: int)
    requires
        at(s, i, "}"@),
    ensures
        0 <= i < s.len(),
        s[i] == '}',
        !is_digit(s[i]),
{
    reveal_strlit("}");
    assert("}"@ =~= seq!['}']);
    assert(s.subrange(i, i + 1)[0] == s[i]);
}

/// The image members split off their first member.
pub proof fn lemma_enc_image_pairs_front(ps: Seq<(Seq<char>, ImageV)>)
    requires
        ps.len() >= 1,
    ensures
        ps.len() == 1 ==> enc_image_pairs(ps) == enc_image_pair(ps[0]),
        ps.len() > 1 ==> enc_image_pairs(ps) == enc_image_pair(ps[0]) + seq![','] + enc_image_pairs(
            ps.drop_first(),
        ),
    decreases ps.len(),
{
    if ps.len() > 1 {
        let dl = ps.drop_last();
        let df = ps.drop_first();
        lemma_enc_image_pairs_front(dl);
        assert(dl[0] == ps[0]);
        assert(dl.drop_first() =~= df.drop_last());
        assert(df.last() == ps.last());
        if ps.len() == 2 {
            assert(df[0] == ps[1] && ps.last() == ps[1]);
            assert(enc_image_pairs(ps) =~= enc_image_pair(ps[0]) + seq![','] + enc_image_pairs(df));
        } else {
            assert(enc_image_pairs(ps) =~= enc_image_pair(ps[0]) + seq![','] + enc_image_pairs(df));
        }
    }
}

/// At least one character stands for each image member.
pub proof fn lemma_enc_image_pairs_len(ps: Seq<(Seq<char>, ImageV)>)
    ensures
        enc_image_pairs(ps).len() >= ps.len(),
    decreases ps.len(),
{
    if ps.len() > 1 {
        lemma_enc_image_pairs_len(ps.drop_last());
    }
}

/// Encoded image members followed by the closing brace parse back.
#[verifier::rlimit(80)]
pub proof fn lemma_parse_image_pairs_enc(
    s: Seq<char>,
    i: int,
    ps: Seq<(Seq<char>, ImageV)>,
    fuel: nat,
)
    requires
        ps.len() >= 1,
        fuel >= ps.len(),
        at(s, i, enc_image_pairs(ps) + seq!['}']),
    ensures
        parse_image_pairs(s, i, fuel) == Some((ps, i + enc_image_pairs(ps).len() + 1)),
    decreases ps.len(),
{
    lemma_enc_image_pairs_front(ps);
    let k0 = ps[0].0;
    let v0 = ps[0].1;
    if ps.len() == 1 {
        let whole = enc_image_pairs(ps) + seq!['}'];
        assert(whole =~= enc_str(k0) + (seq![':'] + (enc_image(v0) + seq!['}'])));
        lemma_at_split(s, i, enc_str(k0), seq![':'] + (enc_image(v0) + seq!['}']));
        lemma_parse_string_enc(s, i, k0);
        let n1 = i + enc_str(k0).len();
        lemma_at_split(s, n1, seq![':'], enc_image(v0) + seq!['}']);
        let n2 = n1 + 1;
        lemma_at_split(s, n2, enc_image(v0), seq!['}']);
        lemma_parse_image_enc(s, n2, v0);
        let n3 = n2 + enc_image(v0).len();
        assert(s.subrange(n3, n3 + 1)[0] == s[n3]);
        assert(s[n3] == '}');
        assert(seq![(k0, v0)] =~= ps);
    } else {
        let rest = ps.drop_first();
        let whole = enc_image_pairs(ps) + seq!['}'];
        assert(whole =~= enc_str(k0) + (seq![':'] + (enc_image(v0) + (seq![','] + (enc_image_pairs(
            rest,
        ) + seq!['}'])))));
        lemma_at_split(
            s,
            i,
            enc_str(k0),
            seq![':'] + (enc_image(v0) + (seq![','] + (enc_image_pairs(rest) + seq!['}']))),
        );
        lemma_parse_string_enc(s, i, k0);
        let n1 = i + enc_str(k0).len();
        lemma_at_split(s, n1, seq![':'], enc_image(v0) + (seq![','] + (enc_image_pairs(rest)
            + seq!['}'])));
        let n2 = n1 + 1;
        lemma_at_split(s, n2, enc_image(v0), seq![','] + (enc_image_pairs(rest) + seq!['}']));
        lemma_parse_image_enc(s, n2, v0);
        let n3 = n2 + enc_image(v0).len();
        lemma_at_split(s, n3, seq![','], enc_image_pairs(rest) + seq!['}']);
        assert(s.subrange(n3, n3 + 1)[0] == s[n3]);
        assert(s[n3] == ',');
        lemma_parse_image_pairs_enc(s, n3 + 1, rest, (fuel - 1) as nat);
        assert(seq![(k0, v0)] + rest =~= ps);
    }
}

/// An encoded image object body parses back.
pub proof fn lemma_parse_image_members_enc(s: Seq<char>, i: int, ps: Seq<(Seq<char>, ImageV)>)
    requires
        at(s, i, enc_image_pairs(ps) + seq!['}']),
    ensures
        parse_image_members(s, i) == Some((ps, i + enc_image_pairs(ps).len() + 1)),
{
    if ps.len() == 0 {
        assert(enc_image_pairs(ps) + seq!['}'] =~= seq!['}']);
        assert(s.subrange(i, i + 1)[0] == s[i]);
        assert(s[i] == '}');
        assert(ps =~= Seq::<(Seq<char>, ImageV)>::empty());
    } else {
        lemma_enc_image_pairs_front(ps);
        let whole = enc_image_pairs(ps) + seq!['}'];
        assert(whole[0] == enc_image_pairs(ps)[0]);
        assert(enc_image_pairs(ps)[0] == enc_str(ps[0].0)[0]);
        assert(enc_str(ps[0].0)[0] == '"');
        assert(s.subrange(i, i + whole.len())[0] == s[i]);
        assert(s[i] == '"');
        lemma_enc_image_pairs_len(ps);
        lemma_parse_image_pairs_enc(s, i, ps, s.len() as nat);
    }
}

/// The document of any content parses back to that content.
#[verifier::rlimit(100)]
pub proof fn lemma_parse_enc_state_v(v: StateV)
    ensures
        parse_state_spec(enc_state_v(v)) == Some(v),
{
    let s = enc_state_v(v);
    let h1 = "{\"tagged_images\":{"@;
    let h2b = "},\"images\":{"@;
    let h2 = ",\"images\":{"@;
    let h3b = "},\"layers\":"@;
    let h3 = ",\"layers\":"@;
    let h4 = "}"@;
    reveal_strlit("{\"tagged_images\":{");
    reveal_strlit("},\"images\":{");
    reveal_strlit(",\"images\":{");
    reveal_strlit("},\"layers\":");
    reveal_strlit(",\"layers\":");
    reveal_strlit("}");
    assert(h2b =~= seq!['}'] + h2);
    assert(h3b =~= seq!['}'] + h3);
    assert(h4 =~= seq!['}']);
    let tp = enc_tag_pairs(v.tags);
    let ip = enc_image_pairs(v.images);
    let la = enc_str_array(v.layers);
    let x1 = h1 + tp;
    let x2 = x1 + h2b;
    let x3 = x2 + ip;
    let x4 = x3 + h3b;
    let x5 = x4 + la;
    assert(s == x5 + h4);
    assert(s.subrange(0, s.len() as int) =~= s);
    assert(at(s, 0, s));
    lemma_at_split(s, 0, x5, h4);
    lemma_at_split(s, 0, x4, la);
    lemma_at_split(s, 0, x3, h3b);
    lemma_at_split(s, 0, x2, ip);
    lemma_at_split(s, 0, x1, h2b);
    lemma_at_split(s, 0, h1, tp);
    let n1 = h1.len() as int;
    lemma_at_split(s, x1.len() as int, seq!['}'], h2);
    lemma_at_join(s, n1, tp, seq!['}']);
    lemma_parse_tag_members_enc(s, n1, v.tags);
    let n2 = n1 + tp.len() + 1;
    let n3 = n2 + h2.len();
    assert(n3 == x2.len());
    lemma_at_split(s, x3.len() as int, seq!['}'], h3);
    lemma_at_join(s, n3, ip, seq!['}']);
    lemma_parse_image_members_enc(s, n3, v.images);
    let n4 = n3 + ip.len() + 1;
    let n5 = n4 + h3.len();
    assert(n5 == x4.len());
    lemma_parse_str_arr_enc(s, n5, v.layers);
    let n6 = n5 + la.len();
    assert(at(s, n6, h4));
    let n7 = n6 + 1;
    assert(n7 == s.len());
    assert(v == StateV { tags: v.tags, images: v.images, layers: v.layers });
}

/// Persist then load: the document a state writes parses back to the same
/// content, across all three collections.
pub proof fn lemma_state_round_trip(st: ApplicationState)
    ensures
        parse_state_spec(enc_state(st)) == Some(state_view(st)),
{
    lemma_parse_enc_state_v(state_view(st));
}

/// Serializes the whole state: exactly the document `enc_state` describes.
pub fn encode_state(st: &ApplicationState) -> (r: String)
    ensures
        r@ == enc_state(*st),
{
    let mut out = String::new();
    out.append("{\"tagged_images\":{");
    append_tag_pairs(&mut out, &st.tagged_images);
    out.append("},\"images\":{");
    append_image_pairs(&mut out, &st.images);
    out.append("},\"layers\":");
    append_str_array(&mut out, &st.layers);
    out.append("}");
    proof {
        assert(state_view(*st).tags == state_tags_view(st.tagged_images@));
        assert(state_view(*st).images == state_images_view(st.images@));
        assert(state_view(*st).layers == st.layers.deep_view());
        assert(out@ =~= enc_state(*st));
    }
    out
}

} // verus!
