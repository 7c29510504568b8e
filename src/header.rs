use vstd::prelude::*;
use vstd::string::StringExecFns;

use crate::error::HttpError;

verus! {

/// A header as the codec sees it: its name and its value.
pub type HeaderSpec = (Seq<char>, Seq<char>);

/// A control character: Unicode general category Cc.
pub open spec fn is_control(c: char) -> bool {
    (c as u32) <= 0x1f || (0x7f <= (c as u32) && (c as u32) <= 0x9f)
}

/// The structural characters that a header name may not hold.
pub open spec fn is_separator(c: char) -> bool {
    c == '(' || c == ')' || c == ',' || c == '/' || c == ':' || c == ';' || c == '<' || c == '='
        || c == '>' || c == '?' || c == '@' || c == '[' || c == '\\' || c == ']' || c == '{'
        || c == '}'
}

pub open spec fn valid_name(n: Seq<char>) -> bool {
    forall|i: int| 0 <= i < n.len() ==> !is_control(#[trigger] n[i]) && !is_separator(n[i])
}

pub open spec fn valid_value(v: Seq<char>) -> bool {
    forall|i: int| 0 <= i < v.len() ==> !is_control(#[trigger] v[i])
}

pub open spec fn valid_header(h: HeaderSpec) -> bool {
    valid_name(h.0) && valid_value(h.1)
}

pub open spec fn valid_headers(hs: Seq<HeaderSpec>) -> bool {
    forall|i: int| 0 <= i < hs.len() ==> valid_header(#[trigger] hs[i])
}

/// One line of the wire format: `name:value\n`.
pub open spec fn encode_header(h: HeaderSpec) -> Seq<char> {
    h.0 + seq![':'] + h.1 + seq!['\n']
}

/// The wire format of a header list: its lines, in order.
pub open spec fn encode_headers(hs: Seq<HeaderSpec>) -> Seq<char>
    decreases hs.len(),
{
    if hs.len() == 0 {
        Seq::empty()
    } else {
        encode_headers(hs.drop_last()) + encode_header(hs.last())
    }
}

/// Where the decoder stands after reading a prefix of the wire text.
pub enum DecodeState {
    /// Reading a name; `done` holds the headers of the lines read so far.
    InName { name: Seq<char>, done: Seq<HeaderSpec> },
    /// Reading the value that follows `name:`.
    InValue { name: Seq<char>, value: Seq<char>, done: Seq<HeaderSpec> },
    /// The text is not a header list.
    Failed,
}

pub open spec fn decode_start() -> DecodeState {
    DecodeState::InName { name: Seq::empty(), done: Seq::empty() }
}

pub open spec fn decode_step(st: DecodeState, c: char) -> DecodeState {
    match st {
        DecodeState::InName { name, done } => {
            if c == ':' {
                DecodeState::InValue { name, value: Seq::empty(), done }
            } else if is_control(c) || is_separator(c) {
                DecodeState::Failed
            } else {
                DecodeState::InName { name: name.push(c), done }
            }
        },
        DecodeState::InValue { name, value, done } => {
            if c == '\n' {
                DecodeState::InName { name: Seq::empty(), done: done.push((name, value)) }
            } else if is_control(c) {
                DecodeState::Failed
            } else {
                DecodeState::InValue { name, value: value.push(c), done }
            }
        },
        DecodeState::Failed => DecodeState::Failed,
    }
}

/// The state after reading `s` from `st`, one character at a time.
pub open spec fn decode_run(st: DecodeState, s: Seq<char>) -> DecodeState
    decreases s.len(),
{
    if s.len() == 0 {
        st
    } else {
        decode_step(decode_run(st, s.drop_last()), s.last())
    }
}

/// The header list that `s` encodes, if it is one: whole lines only, each
/// with a valid name, a `:`, and a valid value.
pub open spec fn decode_headers(s: Seq<char>) -> Option<Seq<HeaderSpec>> {
    match decode_run(decode_start(), s) {
        DecodeState::InName { name, done } => if name.len() == 0 {
            Some(done)
        } else {
            None
        },
        _ => None,
    }
}

proof fn lemma_run_concat(st: DecodeState, a: Seq<char>, b: Seq<char>)
    ensures
        decode_run(st, a + b) == decode_run(decode_run(st, a), b),
    decreases b.len(),
{
    if b.len() == 0 {
        assert(a + b =~= a);
    } else {
        assert((a + b).drop_last() =~= a + b.drop_last());
        lemma_run_concat(st, a, b.drop_last());
    }
}

proof fn lemma_run_failed(s: Seq<char>)
    ensures
        decode_run(DecodeState::Failed, s) == DecodeState::Failed,
    decreases s.len(),
{
    if s.len() > 0 {
        lemma_run_failed(s.drop_last());
    }
}

proof fn lemma_run_name(buf: Seq<char>, done: Seq<HeaderSpec>, n: Seq<char>)
    requires
        valid_name(n),
    ensures
        decode_run(DecodeState::InName { name: buf, done }, n) == (DecodeState::InName {
            name: buf + n,
            done,
        }),
    decreases n.len(),
{
    if n.len() == 0 {
        assert(buf + n =~= buf);
    } else {
        let m = n.drop_last();
        assert(valid_name(m)) by {
            assert forall|i: int| 0 <= i < m.len() implies !is_control(#[trigger] m[i])
                && !is_separator(m[i]) by {
                assert(m[i] == n[i]);
            }
        }
        lemma_run_name(buf, done, m);
        assert(!is_control(n[n.len() - 1]) && !is_separator(n[n.len() - 1]));
        assert((buf + m).push(n.last()) =~= buf + n);
    }
}

proof fn lemma_run_value(name: Seq<char>, buf: Seq<char>, done: Seq<HeaderSpec>, v: Seq<char>)
    requires
        valid_value(v),
    ensures
        decode_run(DecodeState::InValue { name, value: buf, done }, v) == (DecodeState::InValue {
            name,
            value: buf + v,
            done,
        }),
    decreases v.len(),
{
    if v.len() == 0 {
        assert(buf + v =~= buf);
    } else {
        let m = v.drop_last();
        assert(valid_value(m)) by {
            assert forall|i: int| 0 <= i < m.len() implies !is_control(#[trigger] m[i]) by {
                assert(m[i] == v[i]);
            }
        }
        lemma_run_value(name, buf, done, m);
        assert(!is_control(v[v.len() - 1]));
        assert((buf + m).push(v.last()) =~= buf + v);
    }
}

proof fn lemma_run_line(done: Seq<HeaderSpec>, h: HeaderSpec)
    requires
        valid_header(h),
    ensures
        decode_run(DecodeState::InName { name: Seq::empty(), done }, encode_header(h)) == (
        DecodeState::InName { name: Seq::empty(), done: done.push(h) }),
{
    let st0 = DecodeState::InName { name: Seq::<char>::empty(), done };
    let a = h.0;
    let b = seq![':'] + h.1 + seq!['\n'];
    assert(encode_header(h) =~= a + b);
    lemma_run_concat(st0, a, b);
    lemma_run_name(Seq::empty(), done, a);
    assert(Seq::<char>::empty() + a =~= a);
    let st1 = DecodeState::InName { name: a, done };
    let c = seq![':'];
    let d = h.1 + seq!['\n'];
    assert(b =~= c + d);
    lemma_run_concat(st1, c, d);
    assert(c.drop_last() =~= Seq::<char>::empty());
    assert(decode_run(st1, c.drop_last()) == st1);
    assert(c.last() == ':');
    let st2 = DecodeState::InValue { name: a, value: Seq::empty(), done };
    assert(decode_run(st1, c) == st2);
    lemma_run_concat(st2, h.1, seq!['\n']);
    lemma_run_value(a, Seq::empty(), done, h.1);
    assert(Seq::<char>::empty() + h.1 =~= h.1);
    let st3 = DecodeState::InValue { name: a, value: h.1, done };
    let nl = seq!['\n'];
    assert(nl.drop_last() =~= Seq::<char>::empty());
    assert(decode_run(st3, nl.drop_last()) == st3);
    assert(nl.last() == '\n');
    assert(decode_run(st3, nl) == decode_step(st3, '\n'));
}

proof fn lemma_run_headers(hs: Seq<HeaderSpec>)
    requires
        valid_headers(hs),
    ensures
        decode_run(decode_start(), encode_headers(hs)) == (DecodeState::InName {
            name: Seq::empty(),
            done: hs,
        }),
    decreases hs.len(),
{
    if hs.len() == 0 {
        assert(hs =~= Seq::<HeaderSpec>::empty());
    } else {
        let front = hs.drop_last();
        assert(valid_headers(front)) by {
            assert forall|i: int| 0 <= i < front.len() implies valid_header(#[trigger] front[i]) by {
                assert(front[i] == hs[i]);
            }
        }
        assert(valid_header(hs[hs.len() - 1]));
        lemma_run_headers(front);
        lemma_run_concat(decode_start(), encode_headers(front), encode_header(hs.last()));
        lemma_run_line(front, hs.last());
        assert(front.push(hs.last()) =~= hs);
    }
}

/// Decoding the encoding of a list of valid headers gives back the same list,
/// in the same order and with any repeated names kept.
pub proof fn lemma_header_round_trip(hs: Seq<HeaderSpec>)
    requires
        valid_headers(hs),
    ensures
        decode_headers(encode_headers(hs)) == Some(hs),
{
    lemma_run_headers(hs);
}

/// An ordered list of headers; a name may occur more than once.
pub struct HeaderMap {
    pub entries: Vec<(String, String)>,
}

impl View for HeaderMap {
    type V = Seq<HeaderSpec>;

    open spec fn view(&self) -> Seq<HeaderSpec> {
        self.entries@.map_values(|e: (String, String)| (e.0@, e.1@))
    }
}

/// The value of the first header named `name`, if there is one.
pub open spec fn header_lookup(hs: Seq<HeaderSpec>, name: Seq<char>) -> Option<Seq<char>>
    decreases hs.len(),
{
    if hs.len() == 0 {
        None
    } else if hs[0].0 == name {
        Some(hs[0].1)
    } else {
        header_lookup(hs.drop_first(), name)
    }
}

impl HeaderMap {
    pub fn new() -> (r: HeaderMap)
        ensures
            r@ == Seq::<HeaderSpec>::empty(),
    {
        let r = HeaderMap { entries: Vec::new() };
        assert(r@ =~= Seq::<HeaderSpec>::empty());
        r
    }

    /// Adds a header after those already there.
    pub fn append(&mut self, name: String, value: String)
        ensures
            final(self)@ == old(self)@.push((name@, value@)),
    {
        self.entries.push((name, value));
        assert(self@ =~= old(self)@.push((name@, value@)));
    }

    pub fn len(&self) -> (r: usize)
        ensures
            r == self@.len(),
    {
        self.entries.len()
    }

    /// The value of the first header with this exact name.
    pub fn get(&self, name: &String) -> (r: Option<&String>)
        ensures
            match r {
                Some(v) => header_lookup(self@, name@) == Some(v@),
                None => header_lookup(self@, name@) is None,
            },
    {
        let mut i: usize = 0;
        assert(self@.skip(0) =~= self@);
        while i < self.entries.len()
            invariant
                i <= self.entries.len(),
                header_lookup(self@, name@) == header_lookup(self@.skip(i as int), name@),
            decreases self.entries.len() - i,
        {
            let ghost rest = self@.skip(i as int);
            assert(rest[0] == self@[i as int]);
            if self.entries[i].0 == *name {
                return Some(&self.entries[i].1);
            }
            assert(rest.drop_first() =~= self@.skip(i + 1));
            i = i + 1;
        }
        None
    }
}

/// Relies on String::push: the character is added at the end.
#[verifier::external_body]
pub(crate) fn push_char(s: &mut String, c: char)
    ensures
        final(s)@ == old(s)@.push(c),
{
    s.push(c)
}

fn char_vec(s: &str) -> (r: Vec<char>)
    ensures
        r@ == s@,
{
    let mut r: Vec<char> = Vec::new();
    for c in it: s.chars()
        invariant
            r@ == it.seq().take(it.index() as int),
    {
        r.push(c);
    }
    assert(r@ =~= s@);
    r
}

pub fn is_control_char(c: char) -> (r: bool)
    ensures
        r == is_control(c),
{
    let u = c as u32;
    u <= 0x1f || (0x7f <= u && u <= 0x9f)
}

pub fn is_separator_char(c: char) -> (r: bool)
    ensures
        r == is_separator(c),
{
    c == '(' || c == ')' || c == ',' || c == '/' || c == ':' || c == ';' || c == '<' || c == '='
        || c == '>' || c == '?' || c == '@' || c == '[' || c == '\\' || c == ']' || c == '{'
        || c == '}'
}

fn check_name(n: &String) -> (r: bool)
    ensures
        r == valid_name(n@),
{
    let cs = char_vec(n.as_str());
    let mut i: usize = 0;
    while i < cs.len()
        invariant
            cs@ == n@,
            i <= cs.len(),
            forall|j: int| 0 <= j < i ==> !is_control(#[trigger] cs@[j]) && !is_separator(cs@[j]),
        decreases cs.len() - i,
    {
        if is_control_char(cs[i]) || is_separator_char(cs[i]) {
            return false;
        }
        i = i + 1;
    }
    true
}

fn check_value(v: &String) -> (r: bool)
    ensures
        r == valid_value(v@),
{
    let cs = char_vec(v.as_str());
    let mut i: usize = 0;
    while i < cs.len()
        invariant
            cs@ == v@,
            i <= cs.len(),
            forall|j: int| 0 <= j < i ==> !is_control(#[trigger] cs@[j]),
        decreases cs.len() - i,
    {
        if is_control_char(cs[i]) {
            return false;
        }
        i = i + 1;
    }
    true
}

/// Encodes a header list as `name:value\n` lines. A name with a control
/// character or a separator, or a value with a control character (a line
/// break among them), is refused rather than written ambiguously.
pub fn header_map_to_string(hm: &HeaderMap) -> (r: Result<String, HttpError>)
    ensures
        match r {
            Ok(s) => valid_headers(hm@) && s@ == encode_headers(hm@),
            Err(e) => !valid_headers(hm@) && e == HttpError::InvalidEncoding,
        },
{
    let mut res = String::new();
    let mut i: usize = 0;
    while i < hm.entries.len()
        invariant
            i <= hm.entries.len(),
            valid_headers(hm@.take(i as int)),
            res@ == encode_headers(hm@.take(i as int)),
        decreases hm.entries.len() - i,
    {
        let entry = &hm.entries[i];
        assert(hm@[i as int] == (entry.0@, entry.1@));
        if !check_name(&entry.0) || !check_value(&entry.1) {
            assert(!valid_header(hm@[i as int]));
            return Err(HttpError::InvalidEncoding);
        }
        res.append(entry.0.as_str());
        push_char(&mut res, ':');
        res.append(entry.1.as_str());
        push_char(&mut res, '\n');
        let ghost prefix = hm@.take(i + 1);
        assert(prefix.drop_last() =~= hm@.take(i as int));
        assert(res@ =~= encode_headers(prefix));
        assert(valid_headers(prefix)) by {
            assert forall|j: int| 0 <= j < prefix.len() implies valid_header(#[trigger] prefix[j]) by {
                if j < i {
                    assert(prefix[j] == hm@.take(i as int)[j]);
                }
            }
        }
        i = i + 1;
    }
    assert(hm@.take(i as int) =~= hm@);
    Ok(res)
}

/// Decodes a header list from its `name:value\n` lines. Text that is not the
/// encoding of a valid header list is refused.
pub fn string_to_header_map(s: &str) -> (r: Result<HeaderMap, HttpError>)
    ensures
        match r {
            Ok(hm) => decode_headers(s@) == Some(hm@),
            Err(e) => decode_headers(s@) is None && e == HttpError::InvalidEncoding,
        },
{
    let cs = char_vec(s);
    let mut done = HeaderMap::new();
    let mut name = String::new();
    let mut value = String::new();
    let mut in_value = false;
    let mut i: usize = 0;
    while i < cs.len()
        invariant
            cs@ == s@,
            i <= cs.len(),
            decode_run(decode_start(), cs@.take(i as int)) == (if in_value {
                DecodeState::InValue { name: name@, value: value@, done: done@ }
            } else {
                DecodeState::InName { name: name@, done: done@ }
            }),
            !in_value ==> value@ == Seq::<char>::empty(),
        decreases cs.len() - i,
    {
        let c = cs[i];
        assert(cs@.take(i + 1).drop_last() =~= cs@.take(i as int));
        assert(cs@.take(i + 1).last() == c);
        let ghost prev = decode_run(decode_start(), cs@.take(i as int));
        assert(decode_run(decode_start(), cs@.take(i + 1)) == decode_step(prev, c));
        if !in_value {
            if c == ':' {
                in_value = true;
            } else if is_control_char(c) || is_separator_char(c) {
                proof {
                    lemma_run_concat(decode_start(), cs@.take(i + 1), cs@.skip(i + 1));
                    assert(cs@.take(i + 1) + cs@.skip(i + 1) =~= s@);
                    lemma_run_failed(cs@.skip(i + 1));
                }
                return Err(HttpError::InvalidEncoding);
            } else {
                push_char(&mut name, c);
            }
        } else {
            if c == '\n' {
                done.append(name, value);
                name = String::new();
                value = String::new();
                in_value = false;
            } else if is_control_char(c) {
                proof {
                    lemma_run_concat(decode_start(), cs@.take(i + 1), cs@.skip(i + 1));
                    assert(cs@.take(i + 1) + cs@.skip(i + 1) =~= s@);
                    lemma_run_failed(cs@.skip(i + 1));
                }
                return Err(HttpError::InvalidEncoding);
            } else {
                push_char(&mut value, c);
            }
        }
        i = i + 1;
    }
    assert(cs@.take(i as int) =~= s@);
    if in_value || !name.as_str().is_empty() {
        return Err(HttpError::InvalidEncoding);
    }
    Ok(done)
}

} // verus!
