//! The serialized form of chain and token descriptors: compact JSON with
//! stable field names, the only form in which this subsystem's state crosses
//! the external boundary.

use crate::address::{hex_char, hex_digit};
use crate::text::{dec_str, push_char, u64_to_string};
use crate::wallet::{
    chain_desc_views, token_desc_views, ChainDescView, ChainDescriptor, TokenDescView,
    TokenDescriptor,
};
use vstd::prelude::*;

verus! {

/// The escape of one character inside a JSON string: quote and backslash get
/// a backslash, control characters get their mandated `\u00..` form, and
/// everything else stands as itself.
pub open spec fn esc_char(c: char) -> Seq<char> {
    if c == '"' || c == '\\' {
        seq!['\\', c]
    } else if (c as u32) < 32 {
        seq![
            '\\',
            'u',
            '0',
            '0',
            hex_digit(((c as u32) / 16) as nat),
            hex_digit(((c as u32) % 16) as nat),
        ]
    } else {
        seq![c]
    }
}

/// `s` with every character escaped for a JSON string body.
pub open spec fn json_escape(s: Seq<char>) -> Seq<char>
    decreases s.len(),
{
    if s.len() == 0 {
        Seq::empty()
    } else {
        esc_char(s[0]) + json_escape(s.drop_first())
    }
}

pub proof fn lemma_json_escape_push(s: Seq<char>, c: char)
    ensures
        json_escape(s.push(c)) == json_escape(s) + esc_char(c),
    decreases s.len(),
{
    reveal_with_fuel(json_escape, 3);
    if s.len() == 0 {
        assert(s.push(c)[0] == c);
        assert(s.push(c).drop_first() =~= Seq::<char>::empty());
        assert(json_escape(s.push(c)) =~= json_escape(s) + esc_char(c));
    } else {
        lemma_json_escape_push(s.drop_first(), c);
        assert(s.push(c).drop_first() =~= s.drop_first().push(c));
        assert(s.push(c)[0] == s[0]);
        assert(esc_char(s[0]) + (json_escape(s.drop_first()) + esc_char(c)) =~= (esc_char(s[0])
            + json_escape(s.drop_first())) + esc_char(c));
        assert(json_escape(s.push(c)) =~= json_escape(s) + esc_char(c));
    }
}

/// A JSON string: quote, escaped body, quote.
pub open spec fn json_string(s: Seq<char>) -> Seq<char> {
    seq!['"'] + json_escape(s) + seq!['"']
}

/// `items` joined with `','` between consecutive elements.
pub open spec fn join_comma(items: Seq<Seq<char>>) -> Seq<char>
    decreases items.len(),
{
    if items.len() == 0 {
        Seq::empty()
    } else if items.len() == 1 {
        items[0]
    } else {
        items[0] + seq![','] + join_comma(items.drop_first())
    }
}

pub proof fn lemma_join_comma_push(items: Seq<Seq<char>>, x: Seq<char>)
    ensures
        items.len() == 0 ==> join_comma(items.push(x)) == x,
        items.len() > 0 ==> join_comma(items.push(x)) == join_comma(items) + seq![','] + x,
    decreases items.len(),
{
    if items.len() == 0 {
        assert(items.push(x)[0] == x);
    } else if items.len() == 1 {
        assert(items.push(x).drop_first() =~= seq![x]);
        assert(items.push(x)[0] == items[0]);
        assert(join_comma(seq![x]) == x);
        assert(join_comma(items.push(x)) == items[0] + seq![','] + x);
    } else {
        lemma_join_comma_push(items.drop_first(), x);
        assert(items.push(x).drop_first() =~= items.drop_first().push(x));
        assert(join_comma(items.push(x)) =~= join_comma(items) + seq![','] + x);
    }
}

/// A JSON array of the given element texts.
pub open spec fn json_array(items: Seq<Seq<char>>) -> Seq<char> {
    seq!['['] + join_comma(items) + seq![']']
}

/// The serialized form of one token descriptor.
pub open spec fn token_desc_json(t: TokenDescView) -> Seq<char> {
    "{\"contract_address\":"@ + json_string(t.contract_address) + ",\"symbol\":"@ + json_string(
        t.symbol,
    ) + ",\"decimals\":"@ + dec_str(t.decimals as nat) + "}"@
}

/// The serialized form of a token-descriptor list.
pub open spec fn tokens_json(ts: Seq<TokenDescView>) -> Seq<char> {
    json_array(ts.map_values(|t: TokenDescView| token_desc_json(t)))
}

/// The serialized form of one chain descriptor, nested tokens included.
pub open spec fn chain_desc_json(c: ChainDescView) -> Seq<char> {
    "{\"id\":"@ + json_string(c.id) + ",\"symbol\":"@ + json_string(c.symbol) + ",\"rpc\":"@
        + json_string(c.rpc) + ",\"decimals\":"@ + dec_str(c.decimals as nat) + ",\"tokens\":"@
        + tokens_json(c.tokens) + "}"@
}

/// The serialized form of a chain-descriptor list.
pub open spec fn chains_json(cs: Seq<ChainDescView>) -> Seq<char> {
    json_array(cs.map_values(|c: ChainDescView| chain_desc_json(c)))
}

/// Appends the JSON string form of `s` to `out`.
fn write_json_string(out: &mut String, s: &str)
    ensures
        final(out)@ == old(out)@ + json_string(s@),
{
    push_char(out, '"');
    let cs = crate::text::str_to_chars(s);
    let mut i: usize = 0;
    proof {
        assert(json_escape(cs@.take(0)) =~= Seq::<char>::empty());
        assert(out@ =~= old(out)@ + seq!['"'] + json_escape(cs@.take(0)));
    }
    while i < cs.len()
        invariant
            i <= cs@.len(),
            cs@ == s@,
            out@ == old(out)@ + seq!['"'] + json_escape(cs@.take(i as int)),
        decreases cs@.len() - i,
    {
        let c = cs[i];
        if c == '"' || c == '\\' {
            push_char(out, '\\');
            push_char(out, c);
        } else if (c as u32) < 32 {
            let code = c as u32;
            push_char(out, '\\');
            push_char(out, 'u');
            push_char(out, '0');
            push_char(out, '0');
            push_char(out, hex_char((code / 16) as u8));
            push_char(out, hex_char((code % 16) as u8));
        } else {
            push_char(out, c);
        }
        i = i + 1;
        proof {
            lemma_json_escape_push(cs@.take(i - 1), cs@[i - 1]);
            assert(cs@.take(i as int) =~= cs@.take(i - 1).push(cs@[i - 1]));
            assert(out@ =~= old(out)@ + seq!['"'] + json_escape(cs@.take(i as int)));
        }
    }
    push_char(out, '"');
    proof {
        assert(cs@.take(cs@.len() as int) =~= cs@);
        assert(out@ =~= old(out)@ + json_string(s@));
    }
}

/// Appends the decimal numeral of `n` to `out`.
fn write_u64(out: &mut String, n: u64)
    ensures
        final(out)@ == old(out)@ + dec_str(n as nat),
{
    let text = u64_to_string(n);
    out.append(text.as_str());
}

/// Appends the serialized form of one token descriptor to `out`.
fn write_token_desc(out: &mut String, t: &TokenDescriptor)
    ensures
        final(out)@ == old(out)@ + token_desc_json(t@),
{
    out.append("{\"contract_address\":");
    write_json_string(out, t.contract_address.as_str());
    out.append(",\"symbol\":");
    write_json_string(out, t.symbol.as_str());
    out.append(",\"decimals\":");
    write_u64(out, t.decimals as u64);
    out.append("}");
    proof {
        assert(out@ =~= old(out)@ + token_desc_json(t@));
    }
}

/// The serialized form of a token-descriptor list: what one account's token
/// list for one chain is persisted as.
pub fn tokens_to_json(ts: &Vec<TokenDescriptor>) -> (r: String)
    ensures
        r@ == tokens_json(token_desc_views(ts@)),
{
    let mut out = String::new();
    push_char(&mut out, '[');
    let ghost f = |t: TokenDescView| token_desc_json(t);
    let mut i: usize = 0;
    proof {
        assert(token_desc_views(ts@).take(0).map_values(f) =~= Seq::<Seq<char>>::empty());
        assert(out@ =~= seq!['['] + join_comma(token_desc_views(ts@).take(0).map_values(f)));
    }
    while i < ts.len()
        invariant
            f == (|t: TokenDescView| token_desc_json(t)),
            i <= ts@.len(),
            out@ == seq!['['] + join_comma(token_desc_views(ts@).take(i as int).map_values(f)),
        decreases ts@.len() - i,
    {
        if i > 0 {
            push_char(&mut out, ',');
        }
        let t: &TokenDescriptor = &ts[i];
        write_token_desc(&mut out, t);
        i = i + 1;
        proof {
            let views = token_desc_views(ts@);
            assert(views.take(i as int) =~= views.take(i - 1).push(views[i - 1]));
            crate::text::lemma_map_push(views.take(i - 1), f, views[i - 1]);
            lemma_join_comma_push(views.take(i - 1).map_values(f), f(views[i - 1]));
            assert(views[i - 1] == ts@[i - 1]@);
            assert(out@ =~= seq!['['] + join_comma(views.take(i as int).map_values(f)));
        }
    }
    push_char(&mut out, ']');
    proof {
        let views = token_desc_views(ts@);
        assert(views.take(views.len() as int) =~= views);
        assert(out@ =~= tokens_json(views));
    }
    out
}

/// Appends the serialized form of one chain descriptor to `out`.
fn write_chain_desc(out: &mut String, c: &ChainDescriptor)
    ensures
        final(out)@ == old(out)@ + chain_desc_json(c@),
{
    out.append("{\"id\":");
    write_json_string(out, c.id.as_str());
    out.append(",\"symbol\":");
    write_json_string(out, c.symbol.as_str());
    out.append(",\"rpc\":");
    write_json_string(out, c.rpc.as_str());
    out.append(",\"decimals\":");
    write_u64(out, c.decimals as u64);
    out.append(",\"tokens\":");
    let tokens_text = tokens_to_json(&c.tokens);
    out.append(tokens_text.as_str());
    out.append("}");
    proof {
        assert(out@ =~= old(out)@ + chain_desc_json(c@));
    }
}

/// The serialized form of a chain-descriptor list: the shape handed across
/// the external boundary.
pub fn chains_to_json(cs: &Vec<ChainDescriptor>) -> (r: String)
    ensures
        r@ == chains_json(chain_desc_views(cs@)),
{
    let mut out = String::new();
    push_char(&mut out, '[');
    let ghost f = |c: ChainDescView| chain_desc_json(c);
    let mut i: usize = 0;
    proof {
        assert(chain_desc_views(cs@).take(0).map_values(f) =~= Seq::<Seq<char>>::empty());
        assert(out@ =~= seq!['['] + join_comma(chain_desc_views(cs@).take(0).map_values(f)));
    }
    while i < cs.len()
        invariant
            f == (|c: ChainDescView| chain_desc_json(c)),
            i <= cs@.len(),
            out@ == seq!['['] + join_comma(chain_desc_views(cs@).take(i as int).map_values(f)),
        decreases cs@.len() - i,
    {
        if i > 0 {
            push_char(&mut out, ',');
        }
        let c: &ChainDescriptor = &cs[i];
        write_chain_desc(&mut out, c);
        i = i + 1;
        proof {
            let views = chain_desc_views(cs@);
            assert(views.take(i as int) =~= views.take(i - 1).push(views[i - 1]));
            crate::text::lemma_map_push(views.take(i - 1), f, views[i - 1]);
            lemma_join_comma_push(views.take(i - 1).map_values(f), f(views[i - 1]));
            assert(views[i - 1] == cs@[i - 1]@);
            assert(out@ =~= seq!['['] + join_comma(views.take(i as int).map_values(f)));
        }
    }
    push_char(&mut out, ']');
    proof {
        let views = chain_desc_views(cs@);
        assert(views.take(views.len() as int) =~= views);
        assert(out@ =~= chains_json(views));
    }
    out
}

} // verus!
