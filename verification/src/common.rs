use vstd::prelude::*;
use vstd::std_specs::iter::IteratorSpec;
use vstd::string::*;
use vstd::utf8::*;
use crate::text::{lemma_ascii_prefix_boundary, lemma_ascii_then, lemma_encode_len};

verus! {

broadcast use vstd::string::group_string_axioms;

/// The command that a frame carries.
#[derive(PartialEq, Eq, Debug, Clone, Copy, Structural)]
pub enum FrameType {
    Get,
    SetValue,
    Pub,
    Sub,
}

impl FrameType {
    /// The text that stands for the command on the wire.
    pub open spec fn spec_encode(self) -> Seq<char> {
        match self {
            FrameType::Get => seq!['G', 'e', 't'],
            FrameType::SetValue => seq!['S', 'e', 't'],
            FrameType::Pub => seq!['P', 'u', 'b'],
            FrameType::Sub => seq!['S', 'u', 'b'],
        }
    }

    /// The command that a piece of text names, if it names one.
    pub open spec fn spec_decode(s: Seq<char>) -> Option<FrameType> {
        if s == FrameType::Get.spec_encode() {
            Some(FrameType::Get)
        } else if s == FrameType::SetValue.spec_encode() {
            Some(FrameType::SetValue)
        } else if s == FrameType::Pub.spec_encode() {
            Some(FrameType::Pub)
        } else if s == FrameType::Sub.spec_encode() {
            Some(FrameType::Sub)
        } else {
            None
        }
    }

    pub fn encode(&self) -> (r: &str)
        ensures
            r@ == self.spec_encode(),
    {
        match self {
            FrameType::Get => {
                proof {
                    reveal_strlit("Get");
                }
                "Get"
            },
            FrameType::SetValue => {
                proof {
                    reveal_strlit("Set");
                }
                "Set"
            },
            FrameType::Pub => {
                proof {
                    reveal_strlit("Pub");
                }
                "Pub"
            },
            FrameType::Sub => {
                proof {
                    reveal_strlit("Sub");
                }
                "Sub"
            },
        }
    }

    /// Reads a command from its text, which must name one.
    pub fn from(value: &str) -> (r: FrameType)
        requires
            FrameType::spec_decode(value@) is Some,
        ensures
            FrameType::spec_decode(value@) == Some(r),
    {
        match FrameType::decode(value) {
            Some(c) => c,
            None => FrameType::Get,
        }
    }

    /// Reads a command back from its text; `None` where the text names no command.
    pub fn decode(value: &str) -> (r: Option<FrameType>)
        ensures
            r == FrameType::spec_decode(value@),
    {
        let n = value.unicode_len();
        if n != 3 {
            return None;
        }
        let c0 = value.get_char(0);
        let c1 = value.get_char(1);
        let c2 = value.get_char(2);
        assert(value@ =~= seq![c0, c1, c2]);
        if c0 == 'G' && c1 == 'e' && c2 == 't' {
            Some(FrameType::Get)
        } else if c0 == 'S' && c1 == 'e' && c2 == 't' {
            Some(FrameType::SetValue)
        } else if c0 == 'P' && c1 == 'u' && c2 == 'b' {
            Some(FrameType::Pub)
        } else if c0 == 'S' && c1 == 'u' && c2 == 'b' {
            Some(FrameType::Sub)
        } else {
            assert(value@ != FrameType::Get.spec_encode());
            assert(value@ != FrameType::SetValue.spec_encode());
            assert(value@ != FrameType::Pub.spec_encode());
            assert(value@ != FrameType::Sub.spec_encode());
            None
        }
    }
}


/// A request or reply on the wire: a command, a key and an optional value.
/// `key` and `value` are slices of the text the frame was read from.
#[derive(PartialEq, Eq, Debug)]
pub struct Frame<'a> {
    pub command: FrameType,
    pub key: &'a str,
    pub value: Option<&'a str>,
}

/// What a frame says, as characters.
pub struct FrameView {
    pub command: FrameType,
    pub key: Seq<char>,
    pub value: Option<Seq<char>>,
}

impl<'a> View for Frame<'a> {
    type V = FrameView;

    open spec fn view(&self) -> FrameView {
        FrameView {
            command: self.command,
            key: self.key@,
            value: match self.value {
                Some(v) => Some(v@),
                None => None,
            },
        }
    }
}

/// Position of the first space at or after `from`, or the length when there is none.
pub open spec fn next_space(s: Seq<char>, from: int) -> int
    decreases s.len() - from,
{
    if from >= s.len() {
        s.len() as int
    } else if s[from] == ' ' {
        from
    } else {
        next_space(s, from + 1)
    }
}

pub proof fn lemma_next_space(s: Seq<char>, from: int)
    requires
        0 <= from <= s.len(),
    ensures
        from <= next_space(s, from) <= s.len(),
        next_space(s, from) < s.len() ==> s[next_space(s, from)] == ' ',
        forall|j: int| from <= j < next_space(s, from) ==> s[j] != ' ',
    decreases s.len() - from,
{
    if from < s.len() && s[from] != ' ' {
        lemma_next_space(s, from + 1);
    }
}

/// The byte position at which the key of a frame text ends: the character
/// position of the space after the key when there is one, otherwise the
/// byte length of the text.
pub open spec fn key_end(s: Seq<char>) -> int {
    let j = next_space(s, 4);
    if j < s.len() {
        j
    } else {
        encode_utf8(s).len() as int
    }
}

/// The text starts with a command and a space, and the byte positions at
/// which it is cut fall on character boundaries.
pub open spec fn is_frame_text(s: Seq<char>) -> bool {
    let b = encode_utf8(s);
    &&& s.len() >= 4
    &&& s[3] == ' '
    &&& FrameType::spec_decode(s.take(3)) is Some
    &&& is_char_boundary(b, key_end(s))
    &&& key_end(s) + 1 < b.len() ==> is_char_boundary(b, key_end(s) + 1)
}

/// The frame that a text stands for: the command before the first space, the
/// key up to the next space (or the end), and the rest after that space as
/// the value when anything follows it.
pub open spec fn spec_deserialize(s: Seq<char>) -> FrameView {
    let b = encode_utf8(s);
    let ke = key_end(s);
    FrameView {
        command: FrameType::spec_decode(s.take(3))->0,
        key: decode_utf8(b.subrange(4, ke)),
        value: if ke + 1 < b.len() {
            Some(decode_utf8(b.subrange(ke + 1, b.len() as int)))
        } else {
            None
        },
    }
}

/// The text of a frame: command, key and value, with one space between each.
pub open spec fn spec_serialize(f: FrameView) -> Seq<char> {
    f.command.spec_encode() + seq![' '] + f.key + match f.value {
        Some(v) => seq![' '] + v,
        None => Seq::<char>::empty(),
    }
}

impl<'a> Frame<'a> {
    /// Reads a frame from its text without copying: the key and the value are
    /// slices of `buffer`. The command is the text before the first space, the
    /// key runs from there to the next space, and the value is all that
    /// follows that space, when anything does. The end of the key is found as
    /// a character position and cut as a byte position, as `key_end` says.
    pub fn deserialize(buffer: &'a str) -> (r: Frame<'a>)
        requires
            is_frame_text(buffer@),
        ensures
            r@ == spec_deserialize(buffer@),
    {
        let ghost s = buffer@;
        let ghost b = buffer.spec_bytes();
        let bytes = buffer.as_bytes();
        let byte_len = bytes.len();
        assert(byte_len == b.len());
        proof {
            lemma_encode_len(s);
            lemma_next_space(s, 4);
            encode_utf8_valid_utf8(s);
            let t = s.take(3);
            assert(t == FrameType::Get.spec_encode() || t == FrameType::SetValue.spec_encode()
                || t == FrameType::Pub.spec_encode() || t == FrameType::Sub.spec_encode());
            assert(forall|j: int| 0 <= j < 3 ==> s[j] == t[j]);
        }
        let mut it = buffer.chars();
        let mut skipping = true;
        let mut command_end: usize = 0;
        let mut key_end: usize = 0;
        let mut state = ParseState::Command;
        let mut i: usize = 0;
        loop
            invariant_except_break
                it.remaining() == s.skip(i as int),
            invariant
                forall|j: int| 0 <= j < 3 ==> s[j] != ' ',
                s == buffer@,
                b == encode_utf8(s),
                is_frame_text(s),
                s.len() <= b.len() <= usize::MAX,
                4 <= next_space(s, 4) <= s.len(),
                next_space(s, 4) < s.len() ==> s[next_space(s, 4)] == ' ',
                forall|j: int| 4 <= j < next_space(s, 4) ==> s[j] != ' ',
                i <= s.len(),
                skipping == (i == 0),
                i <= 3 ==> state == ParseState::Command && command_end == 0 && key_end == 0,
                i >= 4 ==> command_end == 3 && state != ParseState::Command,
                i >= 4 && state == ParseState::Key ==> key_end == 0 && i <= next_space(s, 4),
                state == ParseState::Finish ==> key_end == next_space(s, 4) && key_end < i,
            ensures
                command_end == 3,
                state == ParseState::Key ==> key_end == 0 && next_space(s, 4) == s.len(),
                state == ParseState::Finish ==> key_end == next_space(s, 4) && key_end < s.len(),
                state != ParseState::Command,
            decreases s.len() - i,
        {
            let next = it.next();
            match next {
                None => {
                    assert(i == s.len());
                    break;
                },
                Some(ch) => {
                    assert(ch == s[i as int]);
                    if skipping && ch == ' ' {
                        // Leading spaces are passed over; a frame text has none.
                        i = i + 1;
                    } else {
                        skipping = false;
                        if ch == ' ' {
                            match state {
                                ParseState::Command => {
                                    command_end = i;
                                    state = ParseState::Key;
                                },
                                ParseState::Key => {
                                    key_end = i;
                                    state = ParseState::Finish;
                                },
                                ParseState::Finish => {
                                    break;
                                },
                            }
                        }
                        i = i + 1;
                    }
                },
            }
        }
        // A text without a space after the key has its key run to the end.
        key_end = if key_end == 0 {
            buffer.len()
        } else {
            key_end
        };
        assert(key_end == crate::common::key_end(s));
        proof {
            let p = s.take(4);
            assert(s =~= p + s.skip(4));
            assert(is_ascii_chars(p)) by {
                assert forall|j: int| 0 <= j < p.len() implies '\0' <= #[trigger] p[j] <= '\u{7f}' by {
                    let t = s.take(3);
                    assert(t == FrameType::Get.spec_encode() || t == FrameType::SetValue.spec_encode()
                        || t == FrameType::Pub.spec_encode() || t == FrameType::Sub.spec_encode());
                    if j < 3 {
                        assert(p[j] == t[j]);
                    }
                }
            }
            lemma_ascii_then(p, s.skip(4));
            lemma_ascii_prefix_boundary(b, 3);
            lemma_ascii_prefix_boundary(b, 4);
        }
        let (head, _) = buffer.split_at(command_end);
        proof {
            let p = s.take(4);
            assert(head.spec_bytes() =~= b.subrange(0, 3));
            let t = s.take(3);
            is_ascii_chars_concat(p, t, seq![' ']);
            assert(p =~= t + seq![' ']);
            lemma_ascii_then(t, Seq::<char>::empty());
            assert(t + Seq::<char>::empty() =~= t);
            assert(encode_utf8(t) =~= b.subrange(0, 3)) by {
                assert forall|j: int| 0 <= j < 3 implies #[trigger] encode_utf8(t)[j] == b[j] by {
                    assert(encode_utf8(t)[j] == t[j] as u8);
                    assert(b[j] == p[j] as u8);
                }
            }
            encode_utf8_decode_utf8(head@);
            encode_utf8_decode_utf8(t);
            assert(head@ == t);
        }
        let command = FrameType::from(head);
        let (left, _) = buffer.split_at(key_end);
        proof {
            let lb = left.spec_bytes();
            assert(lb =~= b.subrange(0, key_end as int));
            valid_utf8_split(b, key_end as int);
            assert(valid_utf8(lb));
            if key_end > 4 {
                is_char_boundary_iff_not_is_continuation_byte(b, 4);
                is_char_boundary_iff_not_is_continuation_byte(lb, 4);
                assert(lb[4] == b[4]);
            } else {
                is_char_boundary_start_end_of_seq(lb);
            }
        }
        let (_, key) = left.split_at(command_end + 1);
        proof {
            assert(key.spec_bytes() =~= b.subrange(4, key_end as int));
            encode_utf8_decode_utf8(key@);
        }
        let value = if key_end < buffer.len() - 1 {
            let (_, rest) = buffer.split_at(key_end + 1);
            proof {
                assert(rest.spec_bytes() =~= b.subrange(key_end + 1, b.len() as int));
                encode_utf8_decode_utf8(rest@);
            }
            Some(rest)
        } else {
            None
        };
        Frame { command, key, value }
    }

    /// Whether `deserialize` accepts the text: it starts with a command and a
    /// space, and the byte positions at which it is cut fall on character
    /// boundaries.
    pub fn parsable(buffer: &str) -> (r: bool)
        ensures
            r == is_frame_text(buffer@),
    {
        let ghost s = buffer@;
        let bytes = buffer.as_bytes();
        assert(bytes@ == encode_utf8(s));
        proof {
            lemma_encode_len(s);
        }
        let n = buffer.unicode_len();
        if n < 4 {
            return false;
        }
        if buffer.get_char(3) != ' ' {
            return false;
        }
        let head = buffer.substring_char(0, 3);
        assert(head@ == s.take(3));
        if FrameType::decode(head).is_none() {
            return false;
        }
        proof {
            lemma_next_space(s, 4);
        }
        let mut it = buffer.chars();
        let mut i: usize = 0;
        let mut space = n;
        loop
            invariant_except_break
                it.remaining() == s.skip(i as int),
                space == n,
            invariant
                s == buffer@,
                n == s.len(),
                n <= bytes@.len(),
                4 <= n,
                i <= n,
                i <= next_space(s, 4) || i <= 4,
                4 <= next_space(s, 4) <= s.len(),
                next_space(s, 4) < s.len() ==> s[next_space(s, 4)] == ' ',
                forall|j: int| 4 <= j < next_space(s, 4) ==> s[j] != ' ',
            ensures
                space == next_space(s, 4) || (space == n && next_space(s, 4) == n),
            decreases n - i,
        {
            match it.next() {
                None => {
                    break;
                },
                Some(ch) => {
                    if i >= 4 && ch == ' ' {
                        assert(ch == s[i as int]);
                        space = i;
                        break;
                    }
                    i = i + 1;
                },
            }
        }
        let ke = if space < n {
            space
        } else {
            bytes.len()
        };
        assert(ke == key_end(s));
        if !buffer.is_char_boundary(ke) {
            return false;
        }
        if ke < bytes.len() - 1 {
            if !buffer.is_char_boundary(ke + 1) {
                return false;
            }
        }
        true
    }

    /// The text of the frame: command, key and, when there is one, value,
    /// each separated by one space.
    pub fn serialize(self) -> (r: String)
        ensures
            r@ == spec_serialize(self@),
    {
        proof {
            reveal_strlit(" ");
        }
        let mut output = String::from_str(self.command.encode());
        output.append(" ");
        output.append(self.key);
        if let Some(value) = self.value {
            output.append(" ");
            output.append(value);
        }
        assert(output@ =~= spec_serialize(self@));
        output
    }
}

/// A frame whose key has no spaces, and whose value, when there is one, is
/// not empty, reads back from its text as itself, provided its key is ASCII
/// where the frame has a value; and its text is one that `Frame::deserialize`
/// accepts.
pub proof fn lemma_deserialize_serialize(f: FrameView)
    requires
        f.value is None || is_ascii_chars(f.key),
        forall|j: int| 0 <= j < f.key.len() ==> f.key[j] != ' ',
        f.value matches Some(v) ==> v.len() > 0,
    ensures
        is_frame_text(spec_serialize(f)),
        spec_deserialize(spec_serialize(f)) == f,
{
    let s = spec_serialize(f);
    let b = encode_utf8(s);
    let c = f.command.spec_encode();
    let q = c + seq![' '] + f.key;
    let n = f.key.len() as int;
    assert(s.take(3) =~= c);
    assert(FrameType::spec_decode(c) == Some(f.command));
    encode_utf8_valid_utf8(s);
    lemma_next_space(s, 4);
    assert forall|j: int| 4 <= j < 4 + n implies s[j] != ' ' by {
        assert(s[j] == f.key[j - 4]);
    }
    encode_utf8_decode_utf8(f.key);
    match f.value {
        None => {
            let p4 = c + seq![' '];
            assert(is_ascii_chars(p4));
            assert(s =~= p4 + f.key);
            lemma_ascii_then(p4, f.key);
            lemma_encode_len(f.key);
            assert(next_space(s, 4) == s.len());
            assert(key_end(s) == b.len());
            is_char_boundary_start_end_of_seq(b);
        },
        Some(v) => {
            assert(is_ascii_chars(q)) by {
                assert forall|j: int| 0 <= j < q.len() implies '\0' <= #[trigger] q[j] <= '\u{7f}' by {
                    if j >= 4 {
                        assert(q[j] == f.key[j - 4]);
                    }
                }
            }
            is_ascii_chars_encode_utf8(f.key);
            let p = q + seq![' '];
            assert(is_ascii_chars(p)) by {
                assert forall|j: int| 0 <= j < p.len() implies '\0' <= #[trigger] p[j] <= '\u{7f}' by {
                    if j < q.len() {
                        assert(p[j] == q[j]);
                    }
                }
            }
            assert(s =~= p + v);
            lemma_ascii_then(p, v);
            lemma_encode_len(v);
            assert(s[4 + n] == ' ');
            assert(next_space(s, 4) == 4 + n);
            assert(key_end(s) == 4 + n);
            lemma_ascii_prefix_boundary(b, 4 + n);
            lemma_ascii_prefix_boundary(b, 5 + n);
            assert(b.subrange(4, 4 + n) =~= encode_utf8(f.key)) by {
                assert forall|j: int| 0 <= j < n implies #[trigger] b.subrange(4, 4 + n)[j]
                    == encode_utf8(f.key)[j] by {
                    assert(b[j + 4] == p[j + 4] as u8);
                    assert(p[j + 4] == f.key[j]);
                }
            }
            encode_utf8_decode_utf8(v);
        },
    }
}

/// Where the scan over a frame text stands.
#[derive(PartialEq, Eq, Structural)]
enum ParseState {
    Command,
    Key,
    Finish,
}

} // verus!
