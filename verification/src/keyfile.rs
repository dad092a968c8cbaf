//! Key files: lines of `key=value` under `[group]` headers, as desktop
//! entries and application metadata are written. The text is taken as the
//! bytes of its UTF-8 form.

use vstd::prelude::*;
use vstd::slice::slice_subrange;
use vstd::string::StringExecFns;
use vstd::string::StringSliceAdditionalSpecFns;

verus! {

/// What is wrong with a key file.
#[derive(Debug, Clone, Copy, PartialEq, Eq)]
pub enum DecodeError {
    /// A key stands before the first group header.
    KeyValueWithoutAGroup,
    /// Nothing stands before the equals sign.
    InvalidKey,
    /// A backslash in the value begins no escape.
    InvalidValue,
}

impl DecodeError {
    /// `text` says what the error is.
    pub open spec fn spec_to_string(&self, text: Seq<char>) -> bool {
        text == match *self {
            DecodeError::KeyValueWithoutAGroup => "key/value without a group"@,
            DecodeError::InvalidKey => "invalid key"@,
            DecodeError::InvalidValue => "invalid value"@,
        }
    }

    /// The error in words.
    pub fn to_string(&self) -> (text: String)
        ensures
            self.spec_to_string(text@),
    {
        match self {
            DecodeError::KeyValueWithoutAGroup => String::from_str("key/value without a group"),
            DecodeError::InvalidKey => String::from_str("invalid key"),
            DecodeError::InvalidValue => String::from_str("invalid value"),
        }
    }
}

pub const NEWLINE: u8 = 0x0a;

pub const RETURN: u8 = 0x0d;

pub const SPACE: u8 = 0x20;

pub const HASH: u8 = 0x23;

pub const EQUALS: u8 = 0x3d;

pub const OPEN: u8 = 0x5b;

pub const BACKSLASH: u8 = 0x5c;

pub const CLOSE: u8 = 0x5d;

/// `i` is where `c` stands first in `b`.
pub open spec fn first_at(b: Seq<u8>, c: u8, i: int) -> bool {
    0 <= i < b.len() && b[i] == c && forall|j: int| 0 <= j < i ==> b[j] != c
}

/// Where `c` stands first in `b`, if it stands in it at all.
pub open spec fn first_index(b: Seq<u8>, c: u8) -> Option<int> {
    if exists|i: int| first_at(b, c, i) {
        Some(choose|i: int| first_at(b, c, i))
    } else {
        None
    }
}

/// `i` is where `c` stands last in `b`.
pub open spec fn last_at(b: Seq<u8>, c: u8, i: int) -> bool {
    0 <= i < b.len() && b[i] == c && forall|j: int| i < j < b.len() ==> b[j] != c
}

/// Where `c` stands last in `b`, if it stands in it at all.
pub open spec fn last_index(b: Seq<u8>, c: u8) -> Option<int> {
    if exists|i: int| last_at(b, c, i) {
        Some(choose|i: int| last_at(b, c, i))
    } else {
        None
    }
}

fn find_first(b: &[u8], c: u8) -> (r: Option<usize>)
    ensures
        match r {
            Some(i) => first_index(b@, c) == Some(i as int) && first_at(b@, c, i as int),
            None => first_index(b@, c) is None && forall|j: int| 0 <= j < b@.len() ==> b@[j] != c,
        },
{
    let mut i: usize = 0;
    while i < b.len()
        invariant
            i <= b@.len(),
            forall|j: int| 0 <= j < i ==> b@[j] != c,
        decreases b@.len() - i,
    {
        if b[i] == c {
            assert(first_at(b@, c, i as int));
            let ghost k = choose|k: int| first_at(b@, c, k);
            assert(k == i) by {
                if k < i {
                    assert(b@[k] != c);
                }
                if i < k {
                    assert(b@[i as int] != c);
                }
            }
            return Some(i);
        }
        i += 1;
    }
    assert forall|k: int| !first_at(b@, c, k) by {
        if 0 <= k < b@.len() {
            assert(b@[k] != c);
        }
    }
    None
}

fn find_last(b: &[u8], c: u8) -> (r: Option<usize>)
    ensures
        match r {
            Some(i) => last_index(b@, c) == Some(i as int) && last_at(b@, c, i as int),
            None => last_index(b@, c) is None,
        },
{
    let mut i: usize = b.len();
    while i > 0
        invariant
            i <= b@.len(),
            forall|j: int| i <= j < b@.len() ==> b@[j] != c,
        decreases i,
    {
        i -= 1;
        if b[i] == c {
            assert(last_at(b@, c, i as int));
            let ghost k = choose|k: int| last_at(b@, c, k);
            assert(k == i) by {
                if k < i {
                    assert(b@[i as int] != c);
                }
                if i < k {
                    assert(b@[k] != c);
                }
            }
            return Some(i);
        }
    }
    assert forall|k: int| !last_at(b@, c, k) by {
        if 0 <= k < b@.len() {
            assert(b@[k] != c);
        }
    }
    None
}

/// Three bytes that are the UTF-8 form of a white-space character.
pub open spec fn is_space3(x: u8, y: u8, z: u8) -> bool {
    ||| (x == 0xe1 && y == 0x9a && z == 0x80)
    ||| (x == 0xe2 && y == 0x80 && (0x80 <= z <= 0x8a || z == 0xa8 || z == 0xa9 || z == 0xaf))
    ||| (x == 0xe2 && y == 0x81 && z == 0x9f)
    ||| (x == 0xe3 && y == 0x80 && z == 0x80)
}

/// How many bytes the white-space character takes that `b` begins with;
/// zero where it begins with none. White space is what Unicode calls so:
/// tab to carriage return, the space, U+0085, U+00A0, U+1680, U+2000 to
/// U+200A, U+2028, U+2029, U+202F, U+205F and U+3000.
pub open spec fn space_before(b: Seq<u8>) -> int {
    if b.len() >= 1 && (0x09 <= b[0] <= 0x0d || b[0] == 0x20) {
        1
    } else if b.len() >= 2 && b[0] == 0xc2 && (b[1] == 0x85 || b[1] == 0xa0) {
        2
    } else if b.len() >= 3 && is_space3(b[0], b[1], b[2]) {
        3
    } else {
        0
    }
}

/// How many bytes the white-space character takes that `b` ends with; zero
/// where it ends with none.
pub open spec fn space_behind(b: Seq<u8>) -> int {
    let n = b.len() as int;
    if n >= 1 && (0x09 <= b[n - 1] <= 0x0d || b[n - 1] == 0x20) {
        1
    } else if n >= 2 && b[n - 2] == 0xc2 && (b[n - 1] == 0x85 || b[n - 1] == 0xa0) {
        2
    } else if n >= 3 && is_space3(b[n - 3], b[n - 2], b[n - 1]) {
        3
    } else {
        0
    }
}

/// `b` without the white space it begins with.
pub open spec fn trim_start(b: Seq<u8>) -> Seq<u8>
    decreases b.len(),
{
    if space_before(b) > 0 {
        trim_start(b.skip(space_before(b)))
    } else {
        b
    }
}

/// `b` without the white space it ends with.
pub open spec fn trim_end(b: Seq<u8>) -> Seq<u8>
    decreases b.len(),
{
    if space_behind(b) > 0 {
        trim_end(b.take(b.len() - space_behind(b)))
    } else {
        b
    }
}

/// `b` without the white space at either end.
pub open spec fn trim(b: Seq<u8>) -> Seq<u8> {
    trim_end(trim_start(b))
}

fn space_at_start(b: &[u8]) -> (n: usize)
    ensures
        n == space_before(b@),
        n <= b@.len(),
{
    let len = b.len();
    if len >= 1 && (0x09 <= b[0] && b[0] <= 0x0d || b[0] == 0x20) {
        1
    } else if len >= 2 && b[0] == 0xc2 && (b[1] == 0x85 || b[1] == 0xa0) {
        2
    } else if len >= 3 && space3(b[0], b[1], b[2]) {
        3
    } else {
        0
    }
}

fn space_at_end(b: &[u8]) -> (n: usize)
    ensures
        n == space_behind(b@),
        n <= b@.len(),
{
    let len = b.len();
    if len >= 1 && (0x09 <= b[len - 1] && b[len - 1] <= 0x0d || b[len - 1] == 0x20) {
        1
    } else if len >= 2 && b[len - 2] == 0xc2 && (b[len - 1] == 0x85 || b[len - 1] == 0xa0) {
        2
    } else if len >= 3 && space3(b[len - 3], b[len - 2], b[len - 1]) {
        3
    } else {
        0
    }
}

fn space3(x: u8, y: u8, z: u8) -> (r: bool)
    ensures
        r == is_space3(x, y, z),
{
    (x == 0xe1 && y == 0x9a && z == 0x80) || (x == 0xe2 && y == 0x80 && (0x80 <= z && z <= 0x8a
        || z == 0xa8 || z == 0xa9 || z == 0xaf)) || (x == 0xe2 && y == 0x81 && z == 0x9f) || (x
        == 0xe3 && y == 0x80 && z == 0x80)
}

/// The part of `b` between the white space at its ends.
pub fn trimmed(b: &[u8]) -> (t: &[u8])
    ensures
        t@ == trim(b@),
{
    let mut t = b;
    loop
        invariant
            trim_start(b@) == trim_start(t@),
        ensures
            t@ == trim_start(b@),
        decreases t@.len(),
    {
        let n = space_at_start(t);
        if n == 0 {
            break ;
        }
        let rest = slice_subrange(t, n, t.len());
        assert(rest@ =~= t@.skip(n as int));
        t = rest;
    }
    let ghost started = t@;
    loop
        invariant
            trim_end(started) == trim_end(t@),
        ensures
            t@ == trim_end(started),
        decreases t@.len(),
    {
        let n = space_at_end(t);
        if n == 0 {
            break ;
        }
        let rest = slice_subrange(t, 0, t.len() - n);
        assert(rest@ =~= t@.take(t@.len() - n));
        t = rest;
    }
    t
}

/// The byte that stands for an escape: `\s` is a space, `\n` a newline,
/// `\t` a tab, `\r` a carriage return and `\\` a backslash.
pub open spec fn escaped(c: u8) -> Option<u8> {
    if c == 0x73 {
        Some(0x20u8)
    } else if c == 0x6e {
        Some(0x0au8)
    } else if c == 0x74 {
        Some(0x09u8)
    } else if c == 0x72 {
        Some(0x0du8)
    } else if c == 0x5c {
        Some(0x5cu8)
    } else {
        None
    }
}

/// `b` with every escape replaced by what it stands for; `None` where a
/// backslash stands last or before a byte that makes no escape.
pub open spec fn unescape(b: Seq<u8>) -> Option<Seq<u8>>
    decreases b.len(),
{
    if b.len() == 0 {
        Some(b)
    } else if b[0] != BACKSLASH {
        match unescape(b.skip(1)) {
            Some(rest) => Some(seq![b[0]] + rest),
            None => None,
        }
    } else if b.len() < 2 {
        None
    } else {
        match (escaped(b[1]), unescape(b.skip(2))) {
            (Some(c), Some(rest)) => Some(seq![c] + rest),
            _ => None,
        }
    }
}

/// `b` without the one space it may begin with.
pub open spec fn strip_space(b: Seq<u8>) -> Seq<u8> {
    if b.len() > 0 && b[0] == SPACE {
        b.skip(1)
    } else {
        b
    }
}

/// The value written as `input`: without the space that may follow the
/// equals sign, and with its escapes resolved.
pub open spec fn value_of(input: Seq<u8>) -> Option<Seq<u8>> {
    unescape(strip_space(input))
}

/// One step of resolving escapes, for a sequence that begins with a plain
/// byte and for one that begins with a backslash.
proof fn lemma_unescape_step(b: Seq<u8>)
    ensures
        b.len() > 0 && b[0] != BACKSLASH ==> unescape(b) == match unescape(b.skip(1)) {
            Some(rest) => Some(seq![b[0]] + rest),
            None => None,
        },
        b.len() >= 2 && b[0] == BACKSLASH ==> unescape(b) == match (
            escaped(b[1]),
            unescape(b.skip(2)),
        ) {
            (Some(c), Some(rest)) => Some(seq![c] + rest),
            _ => None,
        },
{
}

/// The value that is written as `input` behind an equals sign.
pub fn format_value(input: &[u8]) -> (r: Result<Vec<u8>, DecodeError>)
    ensures
        match value_of(input@) {
            Some(v) => r matches Ok(out) && out@ == v,
            None => r matches Err(e) && e == DecodeError::InvalidValue,
        },
{
    let text = if input.len() > 0 && input[0] == SPACE {
        let rest = slice_subrange(input, 1, input.len());
        assert(rest@ =~= strip_space(input@));
        rest
    } else {
        input
    };
    let mut res: Vec<u8> = Vec::new();
    let mut i: usize = 0;
    assert(text@.skip(0) =~= text@);
    while i < text.len()
        invariant
            i <= text@.len(),
            text@ == strip_space(input@),
            unescape(text@) == match unescape(text@.skip(i as int)) {
                Some(rest) => Some(res@ + rest),
                None => None,
            },
        decreases text@.len() - i,
    {
        let ghost here = text@.skip(i as int);
        let ghost before = res@;
        proof {
            lemma_unescape_step(here);
        }
        let v = text[i];
        assert(here[0] == v);
        if v != BACKSLASH {
            assert(here.skip(1) =~= text@.skip(i + 1));
            res.push(v);
            i += 1;
            assert forall|rest: Seq<u8>| (before + seq![v]) + rest == before + (seq![v] + rest) by {
                assert((before + seq![v]) + rest =~= before + (seq![v] + rest));
            }
        } else {
            if text.len() <= i + 1 {
                return Err(DecodeError::InvalidValue);
            }
            assert(here[1] == text@[i + 1]);
            assert(here.skip(2) =~= text@.skip(i + 2));
            let c = text[i + 1];
            let e: u8 = if c == 0x73 {
                0x20
            } else if c == 0x6e {
                0x0a
            } else if c == 0x74 {
                0x09
            } else if c == 0x72 {
                0x0d
            } else if c == 0x5c {
                0x5c
            } else {
                return Err(DecodeError::InvalidValue);
            };
            res.push(e);
            i += 2;
            assert forall|rest: Seq<u8>| (before + seq![e]) + rest == before + (seq![e] + rest) by {
                assert((before + seq![e]) + rest =~= before + (seq![e] + rest));
            }
        }
    }
    assert(text@.skip(i as int) =~= Seq::<u8>::empty());
    assert(res@ + Seq::<u8>::empty() =~= res@);
    Ok(res)
}


fn bytes_eq(a: &[u8], b: &[u8]) -> (r: bool)
    ensures
        r == (a@ == b@),
{
    if a.len() != b.len() {
        return false;
    }
    let mut i: usize = 0;
    while i < a.len()
        invariant
            i <= a@.len(),
            a@.len() == b@.len(),
            forall|j: int| 0 <= j < i ==> a@[j] == b@[j],
        decreases a@.len() - i,
    {
        if a[i] != b[i] {
            return false;
        }
        i += 1;
    }
    assert(a@ =~= b@);
    true
}

/// The keys of a group, each with its value.
pub type Entries = Map<Seq<u8>, Seq<u8>>;

/// The groups of a file, each with its entries.
pub type Groups = Map<Seq<u8>, Entries>;

/// What a list of bindings says: each binding holds but where a later one
/// has the same key.
pub open spec fn bindings(list: Seq<(Vec<u8>, Vec<u8>)>) -> Entries
    decreases list.len(),
{
    if list.len() == 0 {
        Map::empty()
    } else {
        bindings(list.drop_last()).insert(list.last().0@, list.last().1@)
    }
}

/// A list says of two lists, one behind the other, what the first says,
/// overruled by what the second says.
proof fn lemma_bindings_add(a: Seq<(Vec<u8>, Vec<u8>)>, b: Seq<(Vec<u8>, Vec<u8>)>)
    ensures
        bindings(a + b) == bindings(a).union_prefer_right(bindings(b)),
    decreases b.len(),
{
    if b.len() == 0 {
        assert(a + b =~= a);
        assert(bindings(a).union_prefer_right(bindings(b)) =~= bindings(a));
    } else {
        lemma_bindings_add(a, b.drop_last());
        assert((a + b).drop_last() =~= a + b.drop_last());
        assert(bindings(a + b) =~= bindings(a).union_prefer_right(bindings(b)));
    }
}

/// The value of `key` in `entries`, if it has one.
pub open spec fn value_in(entries: Entries, key: Seq<u8>) -> Option<Seq<u8>> {
    if entries.contains_key(key) {
        Some(entries[key])
    } else {
        None
    }
}

/// The keys of one group with their values.
pub struct Group {
    list: Vec<(Vec<u8>, Vec<u8>)>,
}

impl View for Group {
    type V = Entries;

    closed spec fn view(&self) -> Entries {
        bindings(self.list@)
    }
}

impl Group {
    /// A group without keys.
    pub fn new() -> (g: Group)
        ensures
            g@ == Map::<Seq<u8>, Seq<u8>>::empty(),
    {
        Group { list: Vec::new() }
    }

    /// Gives `key` the value `value`, in place of the one it may have.
    pub fn insert(&mut self, key: Vec<u8>, value: Vec<u8>)
        ensures
            final(self)@ == old(self)@.insert(key@, value@),
    {
        self.list.push((key, value));
        assert(self.list@.drop_last() =~= old(self).list@);
    }

    /// Moves all of `other` over: its values overrule those held for the
    /// same keys.
    pub fn append(&mut self, other: Group)
        ensures
            final(self)@ == old(self)@.union_prefer_right(other@),
    {
        let mut other = other;
        proof {
            lemma_bindings_add(self.list@, other.list@);
        }
        self.list.append(&mut other.list);
    }

    /// The value of `key`.
    pub fn get(&self, key: &[u8]) -> (r: Option<&[u8]>)
        ensures
            match value_in(self@, key@) {
                Some(v) => r matches Some(found) && found@ == v,
                None => r is None,
            },
    {
        let mut i: usize = self.list.len();
        assert(self.list@.take(i as int) =~= self.list@);
        while i > 0
            invariant
                i <= self.list@.len(),
                value_in(self@, key@) == value_in(bindings(self.list@.take(i as int)), key@),
            decreases i,
        {
            assert(self.list@.take(i as int).drop_last() =~= self.list@.take(i - 1));
            i -= 1;
            if bytes_eq(self.list[i].0.as_slice(), key) {
                return Some(self.list[i].1.as_slice());
            }
        }
        None
    }
}

/// The groups with `entries` moved into the group `name`: its values
/// overrule those that the group held for the same keys.
pub open spec fn merge_group(groups: Groups, name: Seq<u8>, entries: Entries) -> Groups {
    groups.insert(
        name,
        (if groups.contains_key(name) {
            groups[name]
        } else {
            Map::<Seq<u8>, Seq<u8>>::empty()
        }).union_prefer_right(entries),
    )
}

/// What a list of groups says: each is merged into what those before it say.
pub open spec fn merged(list: Seq<(Vec<u8>, Group)>) -> Groups
    decreases list.len(),
{
    if list.len() == 0 {
        Map::empty()
    } else {
        merge_group(merged(list.drop_last()), list.last().0@, list.last().1@)
    }
}

/// The value of `key` in the group `group`, if there is one.
pub open spec fn value_at(groups: Groups, group: Seq<u8>, key: Seq<u8>) -> Option<Seq<u8>> {
    if groups.contains_key(group) {
        value_in(groups[group], key)
    } else {
        None
    }
}

/// What a key file holds: groups of keys with their values.
pub struct KeyFile {
    list: Vec<(Vec<u8>, Group)>,
}

impl View for KeyFile {
    type V = Groups;

    closed spec fn view(&self) -> Groups {
        merged(self.list@)
    }
}

impl KeyFile {
    /// A file without groups.
    pub fn new() -> (f: KeyFile)
        ensures
            f@ == Map::<Seq<u8>, Entries>::empty(),
    {
        KeyFile { list: Vec::new() }
    }

    /// Moves `group` into the group `name`, which there is from then on.
    pub fn merge(&mut self, name: Vec<u8>, group: Group)
        ensures
            final(self)@ == merge_group(old(self)@, name@, group@),
    {
        self.list.push((name, group));
        assert(self.list@.drop_last() =~= old(self).list@);
    }

    /// Whether there is a group `group`.
    pub fn contains_group(&self, group: &[u8]) -> (r: bool)
        ensures
            r == self@.contains_key(group@),
    {
        let mut i: usize = self.list.len();
        assert(self.list@.take(i as int) =~= self.list@);
        while i > 0
            invariant
                i <= self.list@.len(),
                self@.contains_key(group@) == merged(self.list@.take(i as int)).contains_key(
                    group@,
                ),
            decreases i,
        {
            assert(self.list@.take(i as int).drop_last() =~= self.list@.take(i - 1));
            i -= 1;
            if bytes_eq(self.list[i].0.as_slice(), group) {
                return true;
            }
        }
        false
    }

    /// The value of `key` in the group `group`.
    pub fn get(&self, group: &[u8], key: &[u8]) -> (r: Option<&[u8]>)
        ensures
            match value_at(self@, group@, key@) {
                Some(v) => r matches Some(found) && found@ == v,
                None => r is None,
            },
    {
        let mut i: usize = self.list.len();
        assert(self.list@.take(i as int) =~= self.list@);
        while i > 0
            invariant
                i <= self.list@.len(),
                value_at(self@, group@, key@) == value_at(
                    merged(self.list@.take(i as int)),
                    group@,
                    key@,
                ),
            decreases i,
        {
            assert(self.list@.take(i as int).drop_last() =~= self.list@.take(i - 1));
            i -= 1;
            if bytes_eq(self.list[i].0.as_slice(), group) {
                match self.list[i].1.get(key) {
                    Some(v) => {
                        return Some(v);
                    },
                    None => {},
                }
            }
        }
        None
    }
}


/// How far the reading of a file has come: the groups that are done, the
/// group that lines are being read for, and the key read last, which is
/// put into its group when the next one is read.
pub struct ParseState {
    pub groups: Groups,
    pub active_group: Option<(Seq<u8>, Entries)>,
    pub active_keys: Option<(Seq<u8>, Seq<u8>)>,
}

impl ParseState {
    /// Nothing has been read.
    pub open spec fn start() -> ParseState {
        ParseState { groups: Map::empty(), active_group: None, active_keys: None }
    }

    /// Puts the key read last into its group. A key that stands before any
    /// group header is an error.
    pub open spec fn flush(self) -> Result<ParseState, DecodeError> {
        match self.active_keys {
            None => Ok(self),
            Some((key, value)) => match self.active_group {
                Some((name, entries)) => Ok(
                    ParseState {
                        active_group: Some((name, entries.insert(key, value))),
                        active_keys: None,
                        ..self
                    },
                ),
                None => Err(DecodeError::KeyValueWithoutAGroup),
            },
        }
    }

    /// Puts the group that was being read to those that are done.
    pub open spec fn close(self) -> ParseState {
        match self.active_group {
            None => self,
            Some((name, entries)) => ParseState {
                groups: merge_group(self.groups, name, entries),
                active_group: None,
                ..self
            },
        }
    }

    /// Reads one line.
    ///
    /// A line of white space and one that begins with `#` say nothing. A
    /// line that begins with `[` and holds a `]` opens the group named
    /// between the `[` and the last `]`. Any other line with a `=` gives
    /// the key before the first `=`, trimmed, the value behind it. All
    /// other lines say nothing.
    pub open spec fn line(self, line: Seq<u8>) -> Result<ParseState, DecodeError> {
        if trim(line).len() == 0 || line[0] == HASH {
            Ok(self)
        } else if line[0] == OPEN {
            match last_index(line.skip(1), CLOSE) {
                None => Ok(self),
                Some(end) => match self.flush() {
                    Err(e) => Err(e),
                    Ok(flushed) => Ok(
                        ParseState {
                            active_group: Some((line.subrange(1, end + 1), Map::empty())),
                            ..flushed.close()
                        },
                    ),
                },
            }
        } else {
            match first_index(line, EQUALS) {
                None => Ok(self),
                Some(at) => match value_of(line.skip(at + 1)) {
                    None => Err(DecodeError::InvalidValue),
                    Some(value) => if at == 0 {
                        Err(DecodeError::InvalidKey)
                    } else {
                        match self.flush() {
                            Err(e) => Err(e),
                            Ok(flushed) => Ok(
                                ParseState {
                                    active_keys: Some((trim(line.take(at)), value)),
                                    ..flushed
                                },
                            ),
                        }
                    },
                },
            }
        }
    }

    /// Reads some lines, up to the first that is in error.
    pub open spec fn lines(self, lines: Seq<Seq<u8>>) -> Result<ParseState, DecodeError>
        decreases lines.len(),
    {
        if lines.len() == 0 {
            Ok(self)
        } else {
            match self.line(lines[0]) {
                Err(e) => Err(e),
                Ok(next) => next.lines(lines.drop_first()),
            }
        }
    }

    /// The groups of a file that has been read to its end.
    pub open spec fn finish(self) -> Result<Groups, DecodeError> {
        match self.flush() {
            Err(e) => Err(e),
            Ok(flushed) => Ok(flushed.close().groups),
        }
    }
}

/// `line` without the carriage return it may end with.
pub open spec fn strip_return(line: Seq<u8>) -> Seq<u8> {
    if line.len() > 0 && line.last() == RETURN {
        line.drop_last()
    } else {
        line
    }
}

/// The lines of a text: what stands between its newlines, a carriage
/// return before a newline taken off. A text that ends with a newline has
/// no line behind it.
pub open spec fn lines_of(text: Seq<u8>) -> Seq<Seq<u8>>
    decreases text.len(),
{
    if text.len() == 0 {
        Seq::empty()
    } else {
        match first_index(text, NEWLINE) {
            Some(n) if 0 <= n < text.len() => seq![strip_return(text.take(n))] + lines_of(
                text.skip(n + 1),
            ),
            _ => seq![text],
        }
    }
}

/// What a key file holds, or what is wrong with it.
pub open spec fn parsed(text: Seq<u8>) -> Result<Groups, DecodeError> {
    match ParseState::start().lines(lines_of(text)) {
        Err(e) => Err(e),
        Ok(state) => state.finish(),
    }
}

struct ActiveGroup {
    group_name: Vec<u8>,
    group: Group,
}

struct ActiveKeys {
    key_name: Vec<u8>,
    value: Vec<u8>,
}

spec fn group_view(active_group: Option<ActiveGroup>) -> Option<(Seq<u8>, Entries)> {
    match active_group {
        Some(g) => Some((g.group_name@, g.group@)),
        None => None,
    }
}

spec fn keys_view(active_keys: Option<ActiveKeys>) -> Option<(Seq<u8>, Seq<u8>)> {
    match active_keys {
        Some(k) => Some((k.key_name@, k.value@)),
        None => None,
    }
}

spec fn state_of(
    groups: KeyFile,
    active_group: Option<ActiveGroup>,
    active_keys: Option<ActiveKeys>,
) -> ParseState {
    ParseState {
        groups: groups@,
        active_group: group_view(active_group),
        active_keys: keys_view(active_keys),
    }
}

fn flush(active_group: &mut Option<ActiveGroup>, active_keys: &mut Option<ActiveKeys>) -> (r:
    Result<(), DecodeError>)
    ensures
        forall|groups: KeyFile|
            match (#[trigger] state_of(groups, *old(active_group), *old(active_keys))).flush() {
                Ok(flushed) => r is Ok && state_of(groups, *final(active_group), *final(active_keys))
                    == flushed,
                Err(e) => r == Err::<(), DecodeError>(e),
            },
{
    match active_keys.take() {
        Some(keys) => match active_group {
            Some(group) => {
                group.group.insert(keys.key_name, keys.value);
                Ok(())
            },
            None => Err(DecodeError::KeyValueWithoutAGroup),
        },
        None => Ok(()),
    }
}

fn close(groups: &mut KeyFile, active_group: &mut Option<ActiveGroup>)
    ensures
        forall|active_keys: Option<ActiveKeys>|
            state_of(*final(groups), *final(active_group), active_keys) == (#[trigger] state_of(
                *old(groups),
                *old(active_group),
                active_keys,
            )).close(),
{
    match active_group.take() {
        Some(group) => {
            groups.merge(group.group_name, group.group);
        },
        None => {},
    }
}

fn process_line(
    line: &[u8],
    groups: &mut KeyFile,
    active_group: &mut Option<ActiveGroup>,
    active_keys: &mut Option<ActiveKeys>,
) -> (r: Result<(), DecodeError>)
    ensures
        match state_of(*old(groups), *old(active_group), *old(active_keys)).line(line@) {
            Ok(next) => r is Ok && state_of(*final(groups), *final(active_group), *final(active_keys))
                == next,
            Err(e) => r == Err::<(), DecodeError>(e),
        },
{
    let ghost before = state_of(*groups, *active_group, *active_keys);
    if trimmed(line).len() == 0 || line[0] == HASH {
        return Ok(());
    }
    if line[0] == OPEN {
        let inner = slice_subrange(line, 1, line.len());
        assert(inner@ =~= line@.skip(1));
        match find_last(inner, CLOSE) {
            Some(end) => {
                let name = slice_subrange(line, 1, end + 1);
                let group_name = vstd::slice::slice_to_vec(name);
                match flush(active_group, active_keys) {
                    Ok(_) => {},
                    Err(e) => {
                        return Err(e);
                    },
                }
                let ghost flushed = state_of(*groups, *active_group, *active_keys);
                assert(before.flush() == Ok::<ParseState, DecodeError>(flushed));
                close(groups, active_group);
                assert(state_of(*groups, *active_group, *active_keys) == flushed.close());
                *active_group = Some(ActiveGroup { group_name, group: Group::new() });
            },
            None => {},
        }
        Ok(())
    } else {
        match find_first(line, EQUALS) {
            Some(delimiter) => {
                let key = slice_subrange(line, 0, delimiter);
                let rest = slice_subrange(line, delimiter + 1, line.len());
                assert(key@ =~= line@.take(delimiter as int));
                assert(rest@ =~= line@.skip(delimiter + 1));
                let value = match format_value(rest) {
                    Ok(v) => v,
                    Err(e) => {
                        return Err(e);
                    },
                };
                if key.len() == 0 {
                    return Err(DecodeError::InvalidKey);
                }
                match flush(active_group, active_keys) {
                    Ok(_) => {},
                    Err(e) => {
                        return Err(e);
                    },
                }
                let ghost flushed = state_of(*groups, *active_group, *active_keys);
                assert(before.flush() == Ok::<ParseState, DecodeError>(flushed));
                let key_name = vstd::slice::slice_to_vec(trimmed(key));
                *active_keys = Some(ActiveKeys { key_name, value });
                Ok(())
            },
            None => Ok(()),
        }
    }
}

/// Reads a key file.
pub fn parse(input: &str) -> (r: Result<KeyFile, DecodeError>)
    ensures
        match parsed(input.spec_bytes()) {
            Ok(groups) => r matches Ok(file) && file@ == groups,
            Err(e) => r matches Err(f) && f == e,
        },
{
    let text = input.as_bytes();
    let mut groups = KeyFile::new();
    let mut active_group: Option<ActiveGroup> = None;
    let mut active_keys: Option<ActiveKeys> = None;
    let mut at: usize = 0;
    assert(text@.skip(0) =~= text@);
    while at < text.len()
        invariant
            at <= text@.len(),
            text@ == input.spec_bytes(),
            ParseState::start().lines(lines_of(text@)) == state_of(
                groups,
                active_group,
                active_keys,
            ).lines(lines_of(text@.skip(at as int))),
        decreases text@.len() - at,
    {
        let rest = slice_subrange(text, at, text.len());
        assert(rest@ =~= text@.skip(at as int));
        let ghost before = state_of(groups, active_group, active_keys);
        let (line, next) = match find_first(rest, NEWLINE) {
            Some(n) => {
                let line = slice_subrange(rest, 0, n);
                assert(line@ =~= rest@.take(n as int));
                assert(rest@.skip(n + 1) =~= text@.skip(at + n + 1));
                let line = if n > 0 && line[n - 1] == RETURN {
                    let stripped = slice_subrange(line, 0, n - 1);
                    assert(stripped@ =~= line@.drop_last());
                    stripped
                } else {
                    line
                };
                assert((seq![line@] + lines_of(rest@.skip(n + 1))).drop_first() =~= lines_of(
                    rest@.skip(n + 1),
                ));
                (line, at + n + 1)
            },
            None => {
                assert(seq![rest@].drop_first() =~= Seq::<Seq<u8>>::empty());
                assert(rest@.skip(rest@.len() as int) =~= Seq::<u8>::empty());
                assert(text@.skip(text@.len() as int) =~= Seq::<u8>::empty());
                (rest, text.len())
            },
        };
        assert(lines_of(rest@)[0] == line@);
        assert(lines_of(rest@).drop_first() == lines_of(text@.skip(next as int)));
        match process_line(line, &mut groups, &mut active_group, &mut active_keys) {
            Ok(_) => {},
            Err(e) => {
                return Err(e);
            },
        }
        at = next;
    }
    assert(text@.skip(at as int) =~= Seq::<u8>::empty());
    let ghost read = state_of(groups, active_group, active_keys);
    match flush(&mut active_group, &mut active_keys) {
        Ok(_) => {},
        Err(e) => {
            return Err(e);
        },
    }
    let ghost flushed = state_of(groups, active_group, active_keys);
    assert(read.flush() == Ok::<ParseState, DecodeError>(flushed));
    close(&mut groups, &mut active_group);
    assert(state_of(groups, active_group, active_keys) == flushed.close());
    Ok(groups)
}

} // verus!
