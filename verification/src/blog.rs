//! Flat-file blog posts: a front-matter block of `key: value` lines
//! followed by the markup body.

use vstd::prelude::*;

use crate::text;

verus! {

/// The index of the first occurrence of `c` in `s`, or `s.len()` if `c`
/// does not occur.
pub open spec fn first_at(s: Seq<char>, c: char) -> int
    decreases s.len(),
{
    if s.len() == 0 {
        0
    } else if s[0] == c {
        0
    } else {
        1 + first_at(s.drop_first(), c)
    }
}

proof fn lemma_first_at_bounds(s: Seq<char>, c: char)
    ensures
        0 <= first_at(s, c) <= s.len(),
    decreases s.len(),
{
    if s.len() > 0 && s[0] != c {
        lemma_first_at_bounds(s.drop_first(), c);
    }
}

proof fn lemma_first_at_scan(s: Seq<char>, c: char, i: int)
    requires
        0 <= i <= s.len(),
        forall|j: int| 0 <= j < i ==> s[j] != c,
        i < s.len() ==> s[i] == c,
    ensures
        first_at(s, c) == i,
    decreases i,
{
    if i == 0 {
    } else {
        assert(s[0] != c);
        lemma_first_at_scan(s.drop_first(), c, i - 1);
    }
}

/// The length of the first line of `s`, including its terminating
/// newline when one is present.
pub open spec fn first_line_len(s: Seq<char>) -> int {
    if first_at(s, '\n') < s.len() {
        first_at(s, '\n') + 1
    } else {
        s.len() as int
    }
}

/// A line opens the front matter exactly when it contains a `:` and the
/// part before the first `:` is a single bare token.
pub open spec fn is_meta_line(line: Seq<char>) -> bool {
    &&& first_at(line, ':') < line.len()
    &&& line.take(first_at(line, ':')).len() > 0
    &&& text::single_token(line.take(first_at(line, ':')))
}

/// The metadata key of a line: the part before the first `:`, lowercased.
pub open spec fn meta_key(line: Seq<char>) -> Seq<char> {
    text::lower_of(line.take(first_at(line, ':')))
}

/// The metadata value of a line: the part after the first `:`, trimmed.
pub open spec fn meta_value(line: Seq<char>) -> Seq<char> {
    text::trim(line.skip(first_at(line, ':') + 1))
}

/// Parses the front matter of `s` on top of the metadata read so far.
/// Lines are consumed while they carry metadata; a later binding of the
/// same key wins. The first line that carries none — and everything
/// after it, verbatim — is the body.
pub open spec fn parse_fm(s: Seq<char>, acc: Map<Seq<char>, Seq<char>>) -> (Map<
    Seq<char>,
    Seq<char>,
>, Seq<char>)
    decreases s.len(),
    via parse_fm_dec
{
    if s.len() == 0 {
        (acc, s)
    } else {
        let n = first_line_len(s);
        let line = s.take(n);
        if is_meta_line(line) {
            parse_fm(s.skip(n), acc.insert(meta_key(line), meta_value(line)))
        } else {
            (acc, s)
        }
    }
}

#[via_fn]
proof fn parse_fm_dec(s: Seq<char>, acc: Map<Seq<char>, Seq<char>>) {
    lemma_first_at_bounds(s, '\n');
}

/// What parsing a whole file yields: its metadata and its body.
pub open spec fn front_matter(s: Seq<char>) -> (Map<Seq<char>, Seq<char>>, Seq<char>) {
    parse_fm(s, Map::empty())
}

/// One `key: value` binding of the front matter.
pub struct MetaEntry {
    pub key: String,
    pub value: String,
}

/// The metadata read from a post's front matter, modelled as a map from
/// keys to values in which the last binding of a key wins.
pub struct Metadata {
    entries: Vec<MetaEntry>,
}

/// The map described by a list of bindings, later bindings winning.
pub open spec fn map_of(es: Seq<(Seq<char>, Seq<char>)>) -> Map<Seq<char>, Seq<char>>
    decreases es.len(),
{
    if es.len() == 0 {
        Map::empty()
    } else {
        map_of(es.drop_last()).insert(es.last().0, es.last().1)
    }
}

impl Metadata {
    /// The bindings as ghost pairs, in insertion order.
    pub closed spec fn entries_view(&self) -> Seq<(Seq<char>, Seq<char>)> {
        self.entries@.map_values(|e: MetaEntry| (e.key@, e.value@))
    }

    /// No metadata.
    pub fn new() -> (m: Metadata)
        ensures
            m@ == Map::<Seq<char>, Seq<char>>::empty(),
    {
        let m = Metadata { entries: Vec::new() };
        proof {
            assert(m.entries_view() =~= Seq::<(Seq<char>, Seq<char>)>::empty());
        }
        m
    }

    /// Binds `key` to `value`, replacing any earlier binding.
    pub fn insert(&mut self, key: String, value: String)
        ensures
            final(self)@ == old(self)@.insert(key@, value@),
    {
        let ghost before = self.entries_view();
        self.entries.push(MetaEntry { key, value });
        proof {
            assert(self.entries_view().drop_last() =~= before);
        }
    }

    /// Whether no key is bound.
    pub fn is_empty(&self) -> (r: bool)
        ensures
            r == (self@.dom() == Set::<Seq<char>>::empty()),
    {
        let r = self.entries.len() == 0;
        proof {
            if self.entries.len() == 0 {
                assert(self.entries_view() =~= Seq::<(Seq<char>, Seq<char>)>::empty());
                assert(self@.dom() =~= Set::<Seq<char>>::empty());
            } else {
                let es = self.entries_view();
                assert(self@ == map_of(es.drop_last()).insert(es.last().0, es.last().1));
                assert(self@.dom().contains(es.last().0));
                assert(self@.dom() != Set::<Seq<char>>::empty());
            }
        }
        r
    }

    /// The value bound to `key`, if any.
    pub fn get(&self, key: &str) -> (r: Option<&String>)
        ensures
            match r {
                Some(v) => self@.contains_key(key@) && v@ == self@[key@],
                None => !self@.contains_key(key@),
            },
    {
        let ghost es = self.entries_view();
        let n = self.entries.len();
        let mut i: usize = n;
        proof {
            assert(es.take(n as int) =~= es);
        }
        while i > 0
            invariant
                i <= n,
                n == self.entries.len(),
                es == self.entries_view(),
                map_of(es).contains_key(key@) == map_of(es.take(i as int)).contains_key(key@),
                map_of(es).contains_key(key@) ==> map_of(es)[key@] == map_of(
                    es.take(i as int),
                )[key@],
            decreases i,
        {
            proof {
                assert(es.take(i as int).drop_last() =~= es.take(i - 1));
                assert(es.take(i as int).last() == es[i - 1]);
            }
            if text::str_eq(self.entries[i - 1].key.as_str(), key) {
                assert(es[i - 1].0 == key@);
                return Some(&self.entries[i - 1].value);
            }
            i = i - 1;
        }
        proof {
            assert(es.take(0) =~= Seq::<(Seq<char>, Seq<char>)>::empty());
        }
        None
    }
}

impl View for Metadata {
    type V = Map<Seq<char>, Seq<char>>;

    closed spec fn view(&self) -> Map<Seq<char>, Seq<char>> {
        map_of(self.entries_view())
    }
}

/// A flat-file post: the front-matter metadata and the markup body.
pub struct BlogPost {
    pub body: String,
    pub metadata: Metadata,
}

impl BlogPost {
    fn new() -> (p: BlogPost)
        ensures
            p.metadata@ == Map::<Seq<char>, Seq<char>>::empty(),
            p.body@ == Seq::<char>::empty(),
    {
        BlogPost { body: String::new(), metadata: Metadata::new() }
    }

    /// Parses a post from its text: front-matter lines are read from the
    /// start, and the first line that carries no metadata begins the
    /// body, which is kept verbatim.
    pub fn from_text(text: &str) -> (post: BlogPost)
        ensures
            post.metadata@ == front_matter(text@).0,
            post.body@ == front_matter(text@).1,
    {
        let v = text::chars_vec(text);
        let n = v.len();
        let mut post = BlogPost::new();
        let mut pos: usize = 0;
        proof {
            assert(text@.skip(0) =~= text@);
        }
        loop
            invariant_except_break
                pos <= n,
                n == v@.len(),
                v@ == text@,
                front_matter(text@) == parse_fm(text@.skip(pos as int), post.metadata@),
            ensures
                pos <= n,
                n == v@.len(),
                v@ == text@,
                front_matter(text@) == (post.metadata@, text@.skip(pos as int)),
            decreases n - pos,
        {
            let ghost rest = text@.skip(pos as int);
            if pos == n {
                assert(rest =~= Seq::<char>::empty());
                break;
            }
            // find the end of the current line
            let mut e: usize = pos;
            while e < n && v[e] != '\n'
                invariant
                    pos <= e <= n,
                    n == v@.len(),
                    forall|j: int| pos <= j < e ==> v@[j] != '\n',
                decreases n - e,
            {
                e = e + 1;
            }
            let line_end = if e < n {
                e + 1
            } else {
                n
            };
            proof {
                assert forall|j: int| 0 <= j < e - pos implies rest[j] != '\n' by {
                    assert(rest[j] == v@[pos + j]);
                }
                if e < n {
                    assert(rest[e - pos] == v@[e as int]);
                }
                lemma_first_at_scan(rest, '\n', e - pos);
                assert(first_line_len(rest) == line_end - pos);
            }
            let line = vstd::slice::slice_subrange(v.as_slice(), pos, line_end);
            assert(line@ =~= rest.take(line_end - pos));
            // find the first colon within the line
            let mut c: usize = 0;
            let line_len = line.len();
            while c < line_len && line[c] != ':'
                invariant
                    c <= line_len,
                    line_len == line@.len(),
                    forall|j: int| 0 <= j < c ==> line@[j] != ':',
                decreases line_len - c,
            {
                c = c + 1;
            }
            proof {
                lemma_first_at_scan(line@, ':', c as int);
            }
            if c == line_len {
                // no colon: this line begins the body
                assert(!is_meta_line(line@));
                break;
            }
            let key_raw = vstd::slice::slice_subrange(line, 0, c);
            assert(key_raw@ =~= line@.take(c as int));
            if key_raw.len() == 0 || !count_tokens_is_one(key_raw) {
                assert(!is_meta_line(line@));
                break;
            }
            assert(is_meta_line(line@));
            let key_plain = text::chars_string(key_raw);
            let key = text::to_lowercase(key_plain.as_str());
            let value_raw = vstd::slice::slice_subrange(line, c + 1, line_len);
            assert(value_raw@ =~= line@.skip(c + 1));
            let value_trimmed = text::trim_chars(value_raw);
            let value = text::chars_string(value_trimmed.as_slice());
            assert(key@ == meta_key(line@));
            assert(value@ == meta_value(line@));
            post.metadata.insert(key, value);
            proof {
                assert(rest.skip(line_end - pos) =~= text@.skip(line_end as int));
            }
            pos = line_end;
        }
        let tail = vstd::slice::slice_subrange(v.as_slice(), pos, n);
        assert(tail@ =~= text@.skip(pos as int));
        post.body = text::chars_string(tail);
        post
    }

    /// The body rendered as display markup, or the fixed fallback text
    /// when rendering fails.
    pub fn get_body_as_html(&self) -> (r: String)
        ensures
            crate::render::render_result(self.body@, r@),
    {
        crate::render::render_to_text(self.body.as_str())
    }
}

/// Whether the characters form exactly one bare token.
fn count_tokens_is_one(v: &[char]) -> (r: bool)
    ensures
        r == text::single_token(v@),
{
    text::count_tokens(v) == 1
}

} // verus!
