use vstd::prelude::*;
use vstd::utf8::encode_utf8;
use crate::text::{chars_of, owned, push_char, parse_i32, parse_i32_spec, split_chars, split_on, views};

verus! {

/// The XML declaration that starts every XML body.
pub open spec fn xml_decl() -> Seq<char> {
    "<?xml version=\"1.0\" encoding=\"UTF-8\"?>"@
}

/// How one character of element text is written: `<`, `>` and `&` as entities.
pub open spec fn escape_char(c: char) -> Seq<char> {
    if c == '<' {
        seq!['&', 'l', 't', ';']
    } else if c == '>' {
        seq!['&', 'g', 't', ';']
    } else if c == '&' {
        seq!['&', 'a', 'm', 'p', ';']
    } else {
        seq![c]
    }
}

/// Element text with `<`, `>` and `&` written as entities.
pub open spec fn xml_escape(s: Seq<char>) -> Seq<char>
    decreases s.len(),
{
    if s.len() == 0 {
        Seq::empty()
    } else {
        xml_escape(s.drop_last()) + escape_char(s.last())
    }
}

/// Element text read back: the entities `&lt;`, `&gt;` and `&amp;` become the characters
/// they stand for.
pub open spec fn xml_unescape(t: Seq<char>) -> Seq<char>
    decreases t.len(),
{
    if t.len() == 0 {
        Seq::empty()
    } else if seq!['&', 'l', 't', ';'].is_prefix_of(t) {
        seq!['<'] + xml_unescape(t.subrange(4, t.len() as int))
    } else if seq!['&', 'g', 't', ';'].is_prefix_of(t) {
        seq!['>'] + xml_unescape(t.subrange(4, t.len() as int))
    } else if seq!['&', 'a', 'm', 'p', ';'].is_prefix_of(t) {
        seq!['&'] + xml_unescape(t.subrange(5, t.len() as int))
    } else {
        seq![t[0]] + xml_unescape(t.drop_first())
    }
}

proof fn lemma_escape_front(s: Seq<char>)
    requires
        s.len() > 0,
    ensures
        xml_escape(s) == escape_char(s[0]) + xml_escape(s.drop_first()),
    decreases s.len(),
{
    if s.len() == 1 {
        assert(s.drop_last() =~= Seq::<char>::empty());
        assert(s.drop_first() =~= Seq::<char>::empty());
        assert(xml_escape(s) =~= escape_char(s[0]) + xml_escape(s.drop_first()));
    } else {
        lemma_escape_front(s.drop_last());
        assert(s.drop_last().drop_first() =~= s.drop_first().drop_last());
        assert(xml_escape(s) =~= escape_char(s[0]) + xml_escape(s.drop_first()));
    }
}

/// Escaped text holds no `<`.
pub proof fn lemma_escaped_has_no_open(s: Seq<char>)
    ensures
        forall|i: int| 0 <= i < xml_escape(s).len() ==> xml_escape(s)[i] != '<',
    decreases s.len(),
{
    if s.len() > 0 {
        lemma_escaped_has_no_open(s.drop_last());
        let a = xml_escape(s.drop_last());
        let b = escape_char(s.last());
        assert forall|i: int| 0 <= i < xml_escape(s).len() implies xml_escape(s)[i] != '<' by {
            if i >= a.len() {
                assert(xml_escape(s)[i] == b[i - a.len()]);
            } else {
                assert(xml_escape(s)[i] == a[i]);
            }
        }
    }
}

/// Escaped text reads back as the text it was made from.
#[verifier::spinoff_prover]
#[verifier::rlimit(60)]
pub proof fn lemma_unescape_escape(s: Seq<char>)
    ensures
        xml_unescape(xml_escape(s)) == s,
    decreases s.len(),
{
    if s.len() > 0 {
        lemma_escape_front(s);
        let rest = xml_escape(s.drop_first());
        let t = xml_escape(s);
        let c = s[0];
        lemma_unescape_escape(s.drop_first());
        let lt = seq!['&', 'l', 't', ';'];
        let gt = seq!['&', 'g', 't', ';'];
        let amp = seq!['&', 'a', 'm', 'p', ';'];
        if c == '<' {
            assert(t =~= lt + rest);
            assert(lt.is_prefix_of(t));
            assert(t.subrange(4, t.len() as int) =~= rest);
            assert(xml_unescape(t) == seq!['<'] + xml_unescape(rest));
        } else if c == '>' {
            assert(t =~= gt + rest);
            assert(!lt.is_prefix_of(t)) by {
                assert(t[1] == 'g');
            }
            assert(gt.is_prefix_of(t));
            assert(t.subrange(4, t.len() as int) =~= rest);
            assert(xml_unescape(t) == seq!['>'] + xml_unescape(rest));
        } else if c == '&' {
            assert(t =~= amp + rest);
            assert(!lt.is_prefix_of(t) && !gt.is_prefix_of(t)) by {
                assert(t[1] == 'a');
            }
            assert(amp.is_prefix_of(t));
            assert(t.subrange(5, t.len() as int) =~= rest);
            assert(xml_unescape(t) == seq!['&'] + xml_unescape(rest));
        } else {
            assert(t =~= seq![c] + rest);
            assert(t[0] == c);
            assert(!lt.is_prefix_of(t) && !gt.is_prefix_of(t) && !amp.is_prefix_of(t)) by {
                assert(t[0] != '&');
            }
            assert(t.drop_first() =~= rest);
            assert(xml_unescape(t) == seq![c] + xml_unescape(rest));
        }
        assert(s =~= seq![c] + s.drop_first());
    }
}

/// Writes `s` as element text.
pub fn escape_text(s: &str) -> (r: String)
    ensures
        r@ == xml_escape(s@),
{
    let mut r = String::new();
    let ghost ss = s@;
    assert(ss.subrange(0, 0) =~= Seq::<char>::empty());
    for c in it: s.chars()
        invariant
            it.seq() == ss,
            r@ == xml_escape(ss.subrange(0, it.index() as int)),
    {
        if c == '<' {
            push_char(&mut r, '&');
            push_char(&mut r, 'l');
            push_char(&mut r, 't');
            push_char(&mut r, ';');
        } else if c == '>' {
            push_char(&mut r, '&');
            push_char(&mut r, 'g');
            push_char(&mut r, 't');
            push_char(&mut r, ';');
        } else if c == '&' {
            push_char(&mut r, '&');
            push_char(&mut r, 'a');
            push_char(&mut r, 'm');
            push_char(&mut r, 'p');
            push_char(&mut r, ';');
        } else {
            push_char(&mut r, c);
        }
        proof {
            let next = ss.subrange(0, it.index() + 1);
            assert(next.drop_last() =~= ss.subrange(0, it.index() as int));
            assert(next.last() == c);
            assert(r@ =~= xml_escape(next));
        }
    }
    assert(ss.subrange(0, ss.len() as int) =~= ss);
    r
}

/// `<tag>content</tag>`, with the content escaped.
pub open spec fn xml_elem(tag: Seq<char>, content: Seq<char>) -> Seq<char> {
    "<"@ + tag + ">"@ + xml_escape(content) + "</"@ + tag + ">"@
}

/// Builds a response body as text.
pub struct BodyWriter {
    buf: String,
}

impl View for BodyWriter {
    type V = Seq<char>;

    closed spec fn view(&self) -> Seq<char> {
        self.buf@
    }
}

impl BodyWriter {
    pub fn new() -> (w: Self)
        ensures
            w@ == Seq::<char>::empty(),
    {
        BodyWriter { buf: String::new() }
    }

    /// A writer that holds the XML declaration.
    pub fn new_xml() -> (w: Self)
        ensures
            w@ == xml_decl(),
    {
        let mut w = Self::new();
        w.append("<?xml version=\"1.0\" encoding=\"UTF-8\"?>");
        w
    }

    pub fn append(&mut self, s: &str) -> (r: &mut Self)
        ensures
            r@ == old(self)@ + s@,
            final(self)@ == final(r)@,
    {
        self.buf.append(s);
        self
    }

    /// Appends `<tag>content</tag>`, with `<`, `>` and `&` in the content escaped.
    pub fn append_xml(&mut self, tag: &str, content: &str) -> (r: &mut Self)
        ensures
            r@ == old(self)@ + xml_elem(tag@, content@),
            final(self)@ == final(r)@,
    {
        let text = escape_text(content);
        self.buf.append("<");
        self.buf.append(tag);
        self.buf.append(">");
        self.buf.append(text.as_str());
        self.buf.append("</");
        self.buf.append(tag);
        self.buf.append(">");
        proof {
            assert(self.buf@ =~= old(self)@ + xml_elem(tag@, content@));
        }
        self
    }

    /// The text written so far.
    pub fn _str(self) -> (r: String)
        ensures
            r@ == self@,
    {
        self.buf
    }

    /// The text written so far, encoded as UTF-8.
    pub fn body(self) -> (r: Vec<u8>)
        ensures
            r@ == encode_utf8(self@),
    {
        self.buf.as_str().as_bytes_vec()
    }
}

/// The key and value of one `key=value` piece of a query: the text before the first `=`,
/// and the text between the first and a second `=` (empty when there is no `=`).
pub open spec fn query_pair(piece: Seq<char>) -> (Seq<char>, Seq<char>) {
    let kv = split_on(piece, '=');
    (kv[0], if kv.len() > 1 { kv[1] } else { Seq::empty() })
}

/// The pairs of a query string, in order, one for each piece between `&`s.
pub open spec fn query_pairs(query: Seq<char>) -> Seq<(Seq<char>, Seq<char>)> {
    split_on(query, '&').map_values(|p: Seq<char>| query_pair(p))
}

/// The value of the last pair whose key is `key`, or the empty string when none is.
pub open spec fn query_lookup(pairs: Seq<(Seq<char>, Seq<char>)>, key: Seq<char>) -> Seq<char>
    decreases pairs.len(),
{
    if pairs.len() == 0 {
        Seq::empty()
    } else if pairs.last().0 == key {
        pairs.last().1
    } else {
        query_lookup(pairs.drop_last(), key)
    }
}

/// The integer that `value` holds, or 0 when it holds none.
pub open spec fn int_or_zero(value: Seq<char>) -> int {
    match parse_i32_spec(value) {
        Some(n) => n,
        None => 0,
    }
}

/// The parameters of a query string, looked up by exact key.
pub struct QueryStr {
    pairs: Vec<(String, String)>,
}

impl View for QueryStr {
    type V = Seq<(Seq<char>, Seq<char>)>;

    closed spec fn view(&self) -> Seq<(Seq<char>, Seq<char>)> {
        self.pairs@.map_values(|p: (String, String)| (p.0@, p.1@))
    }
}

impl QueryStr {
    pub fn new(query: String) -> (r: Self)
        ensures
            r@ == query_pairs(query@),
    {
        let chars = chars_of(query.as_str());
        let pieces = split_chars(&chars, '&');
        let mut pairs: Vec<(String, String)> = Vec::new();
        let mut i: usize = 0;
        while i < pieces.len()
            invariant
                i <= pieces.len(),
                views(pieces@) == split_on(query@, '&'),
                pairs@.map_values(|p: (String, String)| (p.0@, p.1@)) =~= split_on(query@, '&').subrange(
                    0,
                    i as int,
                ).map_values(|p: Seq<char>| query_pair(p)),
            decreases pieces.len() - i,
        {
            let kv = split_chars(&chars_of(pieces[i].as_str()), '=');
            proof {
                crate::text::lemma_split_on_nonempty(pieces@[i as int]@, '=');
                assert(views(pieces@)[i as int] == pieces@[i as int]@);
            }
            let key = kv[0].clone();
            let value = if kv.len() > 1 { kv[1].clone() } else { String::new() };
            proof {
                assert(views(kv@)[0] == kv@[0]@);
                if kv.len() > 1 {
                    assert(views(kv@)[1] == kv@[1]@);
                }
            }
            proof {
                assert((key@, value@) == query_pair(pieces@[i as int]@));
            }
            let ghost before = pairs@;
            pairs.push((key, value));
            proof {
                assert(pairs@ =~= before.push((key, value)));
                assert(pairs@.map_values(|p: (String, String)| (p.0@, p.1@)) =~= before.map_values(
                    |p: (String, String)| (p.0@, p.1@),
                ).push((key@, value@)));
                assert(split_on(query@, '&').subrange(0, i + 1) =~= split_on(query@, '&').subrange(
                    0,
                    i as int,
                ).push(pieces@[i as int]@));
            }
            i = i + 1;
        }
        proof {
            assert(split_on(query@, '&').subrange(0, pieces.len() as int) =~= split_on(query@, '&'));
        }
        QueryStr { pairs }
    }

    /// The value of `key`, or the empty string when the query does not hold it.
    pub fn get(&self, key: &str) -> (r: String)
        ensures
            r@ == query_lookup(self@, key@),
    {
        let k = owned(key);
        let mut i: usize = self.pairs.len();
        assert(self@.subrange(0, i as int) =~= self@);
        while i > 0
            invariant
                i <= self.pairs.len(),
                k@ == key@,
                query_lookup(self@, key@) == query_lookup(self@.subrange(0, i as int), key@),
            decreases i,
        {
            proof {
                assert(self@.subrange(0, i as int).drop_last() =~= self@.subrange(0, i - 1));
            }
            if self.pairs[i - 1].0 == k {
                return self.pairs[i - 1].1.clone();
            }
            i = i - 1;
        }
        String::new()
    }

    /// The value of `key` read as an `i32`; 0 when it is missing or not an `i32`.
    pub fn get_i32(&self, key: &str) -> (r: i32)
        ensures
            r as int == int_or_zero(query_lookup(self@, key@)),
    {
        let v = self.get(key);
        match parse_i32(v.as_str()) {
            Some(n) => n,
            None => 0,
        }
    }
}

} // verus!
