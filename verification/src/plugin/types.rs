//! Plugin-facing values: metadata, content, theme colours, errors, and the
//! C ABI records exchanged with plugin libraries together with their
//! conversion into host values.

use vstd::prelude::*;
use vstd::string::StringSliceAdditionalSpecFns;
use vstd::utf8::{
    decode_utf8, encode_utf8_decode_utf8, encode_utf8_valid_utf8, is_char_boundary,
    is_char_boundary_iff_not_is_continuation_byte, is_char_boundary_start_end_of_seq,
    is_continuation_byte, length_of_first_scalar, pop_first_scalar, valid_first_scalar, valid_utf8,
    valid_utf8_split,
};

use super::cstr::{
    c_str_bytes, c_str_len, lemma_c_str_len, lemma_c_str_len_bound, lemma_c_str_len_props,
    read_c_str, reads_as,
};

verus! {

/// A JSON value, carried through unchanged in custom island content.
#[verifier::external_type_specification]
#[verifier::external_body]
pub struct ExJsonValue(serde_json::Value);

/// `serde_json::Value::clone` (derived), which the derived `Clone` of `IslandContent`
/// calls. Nothing is stated of the copy it returns.
pub assume_specification[ <serde_json::Value as core::clone::Clone>::clone ](
    v: &serde_json::Value,
) -> serde_json::Value;

/// Plugin metadata.
#[derive(Debug, Clone)]
pub struct PluginMetadata {
    pub id: String,
    pub name: String,
    pub version: String,
    pub author: String,
    pub description: String,
}

/// The kind of a plugin.
#[derive(Debug, Clone, Copy, PartialEq, Eq, Structural)]
pub enum PluginType {
    ContentProvider,
    ThemeProvider,
    ShortcutProvider,
}

/// Content shown on the island.
#[derive(Debug, Clone)]
pub enum IslandContent {
    Music { title: String, artist: String, cover_url: Option<String>, is_playing: bool },
    Notification { title: String, message: String, icon_url: Option<String> },
    Status { label: String, value: String, icon: Option<String> },
    Shortcut { name: String, icon: Option<String>, action_id: String },
    Custom(serde_json::Value),
}

/// Theme colours, each as RGBA.
#[derive(Debug, Clone, Copy)]
pub struct ThemeColors {
    pub primary: (u8, u8, u8, u8),
    pub secondary: (u8, u8, u8, u8),
    pub background: (u8, u8, u8, u8),
    pub text: (u8, u8, u8, u8),
    pub border: (u8, u8, u8, u8),
}

/// A shortcut definition.
#[derive(Debug, Clone)]
pub struct Shortcut {
    pub id: String,
    pub name: String,
    pub description: String,
    pub icon: Option<String>,
    pub hotkey: Option<String>,
}

/// Plugin errors.
#[derive(Debug)]
pub enum PluginError {
    NotFound(String),
    LoadFailed(String),
    InvalidPlugin(String),
    ExecutionError(String),
}

impl PluginError {
    /// The human-readable message of this error.
    pub open spec fn message(&self) -> Seq<char> {
        match self {
            PluginError::NotFound(msg) => "Plugin not found: "@ + msg@,
            PluginError::LoadFailed(msg) => "Failed to load plugin: "@ + msg@,
            PluginError::InvalidPlugin(msg) => "Invalid plugin: "@ + msg@,
            PluginError::ExecutionError(msg) => "Plugin execution error: "@ + msg@,
        }
    }

    /// Renders the error as text: a fixed prefix naming the kind of error,
    /// followed by its detail message.
    pub fn to_string(&self) -> (s: String)
        ensures
            s@ == self.message(),
    {
        match self {
            PluginError::NotFound(msg) => {
                let mut s = "Plugin not found: ".to_owned();
                s.append(msg.as_str());
                s
            },
            PluginError::LoadFailed(msg) => {
                let mut s = "Failed to load plugin: ".to_owned();
                s.append(msg.as_str());
                s
            },
            PluginError::InvalidPlugin(msg) => {
                let mut s = "Invalid plugin: ".to_owned();
                s.append(msg.as_str());
                s
            },
            PluginError::ExecutionError(msg) => {
                let mut s = "Plugin execution error: ".to_owned();
                s.append(msg.as_str());
                s
            },
        }
    }
}


/// What the host works with for each loaded plugin.
///
/// `spec_metadata` and `spec_kind` are what an implementation's `metadata` and
/// `plugin_type` return: a plugin's metadata and kind are fixed by its value.
/// The registry's contracts rest on these two `ensures` clauses, which are taken on
/// trust for implementations outside verified code; such implementations also define
/// `spec_metadata` and `spec_kind`, which are never called at run time and should
/// return what `metadata` and `plugin_type` return.
pub trait Plugin: Send + Sync {
    /// The metadata of this plugin.
    spec fn spec_metadata(&self) -> PluginMetadata;

    /// The kind of this plugin.
    spec fn spec_kind(&self) -> PluginType;

    fn metadata(&self) -> (m: &PluginMetadata)
        ensures
            *m == self.spec_metadata(),
    ;

    fn plugin_type(&self) -> (t: PluginType)
        ensures
            t == self.spec_kind(),
    ;
}

/// `after` has the metadata and kind of `before`.
pub open spec fn keeps_identity<P: Plugin>(before: P, after: P) -> bool {
    after.spec_metadata() == before.spec_metadata() && after.spec_kind() == before.spec_kind()
}

/// A plugin that provides island content. Handling a click or an expansion never
/// changes the plugin's metadata or kind.
pub trait ContentProvider: Plugin {
    fn get_content(&self) -> Option<IslandContent>;

    fn on_click(&mut self)
        ensures
            final(self).spec_metadata() == old(self).spec_metadata(),
            final(self).spec_kind() == old(self).spec_kind(),
    ;

    fn on_expanded(&mut self, expanded: bool)
        ensures
            final(self).spec_metadata() == old(self).spec_metadata(),
            final(self).spec_kind() == old(self).spec_kind(),
    ;

    fn supports_expand(&self) -> bool;
}

/// A plugin that provides shortcuts. Running a shortcut never changes the plugin's
/// metadata or kind.
pub trait ShortcutProvider: Plugin {
    fn get_shortcuts(&self) -> Vec<Shortcut>;

    fn execute(&mut self, shortcut_id: &str) -> (r: Result<(), String>)
        ensures
            final(self).spec_metadata() == old(self).spec_metadata(),
            final(self).spec_kind() == old(self).spec_kind(),
    ;
}

/// The largest character boundary of the UTF-8 bytes `bytes` at or below `k`.
pub open spec fn boundary_at_or_below(bytes: Seq<u8>, k: int) -> int
    decreases k,
{
    if k <= 0 {
        0
    } else if is_char_boundary(bytes, k) {
        k
    } else {
        boundary_at_or_below(bytes, k - 1)
    }
}

/// How many bytes of a message with the UTF-8 bytes `bytes` `err` keeps: all of them
/// when they fit in 255, otherwise up to the last character boundary at or below 255.
pub open spec fn err_cut(bytes: Seq<u8>) -> int {
    boundary_at_or_below(bytes, if bytes.len() < 255 { bytes.len() as int } else { 255 })
}

/// The error buffer that `PluginResultC::err` writes for a message with the given
/// UTF-8 bytes: the first `err_cut` of them, then NUL bytes up to 256.
pub open spec fn err_buffer(bytes: Seq<u8>) -> Seq<u8> {
    Seq::new(256, |i: int| if i < err_cut(bytes) { bytes[i] } else { 0u8 })
}

/// The outcome of a plugin call, as it crosses the C ABI.
pub struct PluginResultC {
    pub ok: bool,
    /// NUL-terminated UTF-8 error message.
    pub error: [u8; 256],
}

impl PluginResultC {
    /// A successful outcome with an all-zero error buffer.
    pub fn ok() -> (r: Self)
        ensures
            r.ok,
            r.error@ == Seq::new(256, |i: int| 0u8),
    {
        let r = PluginResultC { ok: true, error: [0u8; 256] };
        assert(r.error@ =~= Seq::new(256, |i: int| 0u8));
        r
    }

    /// A failed outcome carrying `msg`: as much of it as fits in 255 bytes without
    /// splitting a character, NUL-terminated. The text before the first NUL is valid
    /// UTF-8 and a prefix of the message.
    pub fn err(msg: &str) -> (r: Self)
        ensures
            !r.ok,
            r.error@ == err_buffer(msg.spec_bytes()),
            c_str_len(r.error@) < 256,
            valid_utf8(c_str_bytes(r.error@)),
            c_str_bytes(r.error@).is_prefix_of(msg.spec_bytes()),
    {
        let mut error = [0u8; 256];
        let bytes = msg.as_bytes();
        let mut len: usize = if bytes.len() < 255 { bytes.len() } else { 255 };
        proof {
            encode_utf8_valid_utf8(msg@);
            is_char_boundary_start_end_of_seq(msg.spec_bytes());
        }
        while !msg.is_char_boundary(len)
            invariant
                len <= bytes@.len(),
                len <= 255,
                bytes@ == msg.spec_bytes(),
                valid_utf8(bytes@),
                is_char_boundary(bytes@, 0),
                boundary_at_or_below(bytes@, len as int) == err_cut(bytes@),
            decreases len,
        {
            len = len - 1;
        }
        let mut i: usize = 0;
        while i < len
            invariant
                len <= bytes@.len(),
                len <= 255,
                len == err_cut(bytes@),
                i <= len,
                bytes@ == msg.spec_bytes(),
                error@.len() == 256,
                forall|j: int| 0 <= j < i ==> error@[j] == bytes@[j],
                forall|j: int| i <= j < 256 ==> error@[j] == 0u8,
            decreases len - i,
        {
            error[i] = bytes[i];
            i = i + 1;
        }
        let r = PluginResultC { ok: false, error };
        assert(r.error@ =~= err_buffer(msg.spec_bytes()));
        proof {
            lemma_err_buffer_valid(msg);
        }
        r
    }

    /// `Ok(())` on success; otherwise the error message read from the buffer.
    pub fn to_result(self) -> (r: Result<(), String>)
        ensures
            self.ok ==> r == Ok::<(), String>(()),
            !self.ok ==> (r matches Err(s) && reads_as(s@, self.error@)),
    {
        if self.ok {
            Ok(())
        } else {
            Err(read_c_str(&self.error))
        }
    }
}

/// Plugin metadata as it crosses the C ABI: five NUL-terminated UTF-8 buffers.
pub struct PluginMetadataC {
    pub id: [u8; 64],
    pub name: [u8; 128],
    pub version: [u8; 32],
    pub author: [u8; 128],
    pub description: [u8; 256],
}

impl PluginMetadataC {
    /// Reads the NUL-terminated text at the start of `buf`.
    pub fn read_str(buf: &[u8]) -> (s: String)
        ensures
            reads_as(s@, buf@),
    {
        read_c_str(buf)
    }

    /// The metadata that the five buffers hold.
    pub fn to_metadata(&self) -> (m: PluginMetadata)
        ensures
            reads_as(m.id@, self.id@),
            reads_as(m.name@, self.name@),
            reads_as(m.version@, self.version@),
            reads_as(m.author@, self.author@),
            reads_as(m.description@, self.description@),
    {
        PluginMetadata {
            id: Self::read_str(&self.id),
            name: Self::read_str(&self.name),
            version: Self::read_str(&self.version),
            author: Self::read_str(&self.author),
            description: Self::read_str(&self.description),
        }
    }
}

/// Island content as it crosses the C ABI. Which buffers are used depends on `tag`.
pub struct IslandContentC {
    pub tag: u32,
    pub title: [u8; 256],
    pub artist: [u8; 256],
    pub cover_url: [u8; 512],
    pub is_playing: bool,
    pub message: [u8; 256],
    pub label: [u8; 128],
    pub value: [u8; 128],
}

/// `opt` is `None` when the first byte of `buf` is NUL, and otherwise holds the text
/// that `buf` reads as.
pub open spec fn optional_reads_as(opt: Option<String>, buf: Seq<u8>) -> bool {
    match opt {
        None => c_str_len(buf) == 0,
        Some(s) => c_str_len(buf) != 0 && reads_as(s@, buf),
    }
}

/// `None` for an empty string, `Some(s)` otherwise.
fn non_empty(s: String) -> (r: Option<String>)
    ensures
        match r {
            None => s@.len() == 0,
            Some(t) => s@.len() != 0 && t == s,
        },
{
    if s.as_str().is_empty() {
        None
    } else {
        Some(s)
    }
}

impl IslandContentC {
    /// Reads the NUL-terminated text at the start of `buf`.
    pub fn read_str(buf: &[u8]) -> (s: String)
        ensures
            reads_as(s@, buf@),
    {
        read_c_str(buf)
    }

    /// The content that the record holds: music for tag 1, a notification for tag 2,
    /// a status for tag 3 (the last two take their icon from `cover_url`), and `None`
    /// for any other tag. An empty URL or icon becomes `None`.
    pub fn to_content(&self) -> (r: Option<IslandContent>)
        ensures
            self.tag == 1 ==> (r matches Some(
                IslandContent::Music { title, artist, cover_url, is_playing },
            ) && reads_as(title@, self.title@) && reads_as(artist@, self.artist@)
                && optional_reads_as(cover_url, self.cover_url@) && is_playing == self.is_playing),
            self.tag == 2 ==> (r matches Some(IslandContent::Notification { title, message, icon_url })
                && reads_as(title@, self.title@) && reads_as(message@, self.message@)
                && optional_reads_as(icon_url, self.cover_url@)),
            self.tag == 3 ==> (r matches Some(IslandContent::Status { label, value, icon })
                && reads_as(label@, self.label@) && reads_as(value@, self.value@)
                && optional_reads_as(icon, self.cover_url@)),
            !(1 <= self.tag <= 3) ==> r is None,
    {
        match self.tag {
            1 => Some(
                IslandContent::Music {
                    title: Self::read_str(&self.title),
                    artist: Self::read_str(&self.artist),
                    cover_url: non_empty(Self::read_str(&self.cover_url)),
                    is_playing: self.is_playing,
                },
            ),
            2 => Some(
                IslandContent::Notification {
                    title: Self::read_str(&self.title),
                    message: Self::read_str(&self.message),
                    icon_url: non_empty(Self::read_str(&self.cover_url)),
                },
            ),
            3 => Some(
                IslandContent::Status {
                    label: Self::read_str(&self.label),
                    value: Self::read_str(&self.value),
                    icon: non_empty(Self::read_str(&self.cover_url)),
                },
            ),
            _ => None,
        }
    }
}

/// Theme colours as they cross the C ABI, each as an RGBA byte array.
pub struct ThemeColorsC {
    pub primary: [u8; 4],
    pub secondary: [u8; 4],
    pub background: [u8; 4],
    pub text: [u8; 4],
    pub border: [u8; 4],
}

/// The RGBA tuple that holds the four bytes of `a`, in order.
pub open spec fn rgba(a: [u8; 4]) -> (u8, u8, u8, u8) {
    (a@[0], a@[1], a@[2], a@[3])
}

impl ThemeColorsC {
    /// The theme colours, each array turned into a tuple with its bytes in order.
    pub fn to_colors(&self) -> (c: ThemeColors)
        ensures
            c.primary == rgba(self.primary),
            c.secondary == rgba(self.secondary),
            c.background == rgba(self.background),
            c.text == rgba(self.text),
            c.border == rgba(self.border),
    {
        ThemeColors {
            primary: (self.primary[0], self.primary[1], self.primary[2], self.primary[3]),
            secondary: (self.secondary[0], self.secondary[1], self.secondary[2], self.secondary[3]),
            background: (
                self.background[0],
                self.background[1],
                self.background[2],
                self.background[3],
            ),
            text: (self.text[0], self.text[1], self.text[2], self.text[3]),
            border: (self.border[0], self.border[1], self.border[2], self.border[3]),
        }
    }
}

/// The plugin type for the `plugin_type` code of a plugin instance: 1 is a content
/// provider, 2 a theme provider, 3 a shortcut provider; any other code is taken as a
/// content provider.
pub open spec fn plugin_type_of_code(code: u32) -> PluginType {
    if code == 2 {
        PluginType::ThemeProvider
    } else if code == 3 {
        PluginType::ShortcutProvider
    } else {
        PluginType::ContentProvider
    }
}

/// The plugin type that an instance's `plugin_type` code stands for.
pub fn plugin_type_enum(plugin_type: u32) -> (t: PluginType)
    ensures
        t == plugin_type_of_code(plugin_type),
{
    match plugin_type {
        1 => PluginType::ContentProvider,
        2 => PluginType::ThemeProvider,
        3 => PluginType::ShortcutProvider,
        _ => PluginType::ContentProvider,
    }
}

/// `boundary_at_or_below` lies between 0 and `k`, and it is a character boundary.
pub proof fn lemma_boundary_at_or_below(bytes: Seq<u8>, k: int)
    requires
        valid_utf8(bytes),
        0 <= k,
    ensures
        0 <= boundary_at_or_below(bytes, k) <= k,
        is_char_boundary(bytes, boundary_at_or_below(bytes, k)),
    decreases k,
{
    is_char_boundary_start_end_of_seq(bytes);
    if k > 0 && !is_char_boundary(bytes, k) {
        lemma_boundary_at_or_below(bytes, k - 1);
    }
}

/// The buffer that `err` writes is always NUL-terminated within its 256 bytes, and the
/// text read back from it is the part of the message that `err` keeps, up to its first
/// NUL byte.
pub proof fn lemma_err_buffer_text(bytes: Seq<u8>)
    requires
        0 <= err_cut(bytes) <= bytes.len(),
        err_cut(bytes) <= 255,
    ensures
        c_str_len(err_buffer(bytes)) < 256,
        c_str_bytes(err_buffer(bytes)) == c_str_bytes(bytes.take(err_cut(bytes))),
{
    let n = err_cut(bytes);
    let buf = err_buffer(bytes);
    let pre = bytes.take(n);
    let k = c_str_len(pre) as int;
    lemma_c_str_len_bound(pre);
    lemma_c_str_len_props(pre);
    assert forall|j: int| 0 <= j < k implies buf[j] != 0 by {
        assert(buf[j] == pre[j]);
    }
    lemma_c_str_len(buf, k);
    assert(c_str_bytes(buf) =~= c_str_bytes(pre));
}

/// The text before the first NUL of the buffer that `err` writes for `msg` is valid
/// UTF-8 and a prefix of the message's bytes: `err` never splits a character.
pub proof fn lemma_err_buffer_valid(msg: &str)
    ensures
        c_str_len(err_buffer(msg.spec_bytes())) < 256,
        valid_utf8(c_str_bytes(err_buffer(msg.spec_bytes()))),
        c_str_bytes(err_buffer(msg.spec_bytes())).is_prefix_of(msg.spec_bytes()),
{
    let bytes = msg.spec_bytes();
    encode_utf8_valid_utf8(msg@);
    let top = if bytes.len() < 255 { bytes.len() as int } else { 255 };
    lemma_boundary_at_or_below(bytes, top);
    let n = err_cut(bytes);
    lemma_err_buffer_text(bytes);
    let pre = bytes.take(n);
    let k = c_str_len(pre) as int;
    lemma_c_str_len_bound(pre);
    lemma_c_str_len_props(pre);
    if k < n {
        assert(bytes[k] == pre[k]);
        assert(!is_continuation_byte(bytes[k]));
        is_char_boundary_iff_not_is_continuation_byte(bytes, k);
    }
    assert(is_char_boundary(bytes, k));
    valid_utf8_split(bytes, k);
    assert(c_str_bytes(pre) =~= bytes.subrange(0, k));
}

/// A message whose UTF-8 form is at most 255 bytes long and holds no NUL byte comes back
/// unchanged: the buffer `err` writes holds exactly its bytes as text, and they decode to it.
pub proof fn lemma_err_message_round_trip(msg: &str)
    requires
        msg.spec_bytes().len() <= 255,
        forall|i: int| 0 <= i < msg.spec_bytes().len() ==> msg.spec_bytes()[i] != 0,
    ensures
        c_str_bytes(err_buffer(msg.spec_bytes())) == msg.spec_bytes(),
        valid_utf8(c_str_bytes(err_buffer(msg.spec_bytes()))),
        decode_utf8(c_str_bytes(err_buffer(msg.spec_bytes()))) == msg@,
{
    let bytes = msg.spec_bytes();
    encode_utf8_valid_utf8(msg@);
    is_char_boundary_start_end_of_seq(bytes);
    lemma_err_buffer_text(bytes);
    assert(bytes.take(bytes.len() as int) =~= bytes);
    lemma_c_str_len(bytes, bytes.len() as int);
    assert(c_str_bytes(bytes) =~= bytes);
    encode_utf8_valid_utf8(msg@);
    encode_utf8_decode_utf8(msg@);
}

/// Each converted colour's four components are the four bytes of its array, in order:
/// component 0 is byte 0, 1 is byte 1, 2 is byte 2 and 3 is byte 3, for every array.
pub proof fn lemma_colors_keep_byte_order(a: [u8; 4])
    ensures
        rgba(a).0 == a@[0],
        rgba(a).1 == a@[1],
        rgba(a).2 == a@[2],
        rgba(a).3 == a@[3],
{
}

/// No position above `boundary_at_or_below(bytes, k)` and at or below `k` is a character
/// boundary.
proof fn lemma_boundary_at_or_below_is_largest(bytes: Seq<u8>, k: int)
    requires
        0 <= k,
    ensures
        forall|j: int| boundary_at_or_below(bytes, k) < j <= k ==> !is_char_boundary(bytes, j),
    decreases k,
{
    if k > 0 && !is_char_boundary(bytes, k) {
        lemma_boundary_at_or_below_is_largest(bytes, k - 1);
    }
}

/// In valid UTF-8 a character is at most four bytes long, so every position from 0 to the
/// length has a character boundary at most three bytes below it.
proof fn lemma_boundary_within_three(bytes: Seq<u8>, k: int) -> (b: int)
    requires
        valid_utf8(bytes),
        0 <= k <= bytes.len(),
    ensures
        k - 3 <= b <= k,
        0 <= b,
        is_char_boundary(bytes, b),
    decreases bytes.len(),
{
    if k <= 3 {
        is_char_boundary_start_end_of_seq(bytes);
        0
    } else {
        let l = length_of_first_scalar(bytes);
        let tail = pop_first_scalar(bytes);
        assert(valid_first_scalar(bytes) && valid_utf8(tail));
        assert(1 <= l <= 4 && l <= bytes.len());
        assert(tail.len() == bytes.len() - l);
        let b1 = lemma_boundary_within_three(tail, k - l);
        let b = b1 + l;
        assert(is_char_boundary(bytes, b) == is_char_boundary(tail, b - l));
        b
    }
}

/// `err` keeps the longest part of the message that fits in 255 bytes without splitting a
/// character: all of a message of at most 255 bytes; of a longer one, its bytes up to the
/// last character boundary at or below 255, which is at least 252. The buffer holds those
/// bytes, then NUL bytes up to 256.
pub proof fn lemma_err_keeps_longest_prefix(msg: &str)
    ensures
        0 <= err_cut(msg.spec_bytes()) <= 255,
        err_cut(msg.spec_bytes()) <= msg.spec_bytes().len(),
        msg.spec_bytes().len() <= 255 ==> err_cut(msg.spec_bytes()) == msg.spec_bytes().len(),
        msg.spec_bytes().len() > 255 ==> err_cut(msg.spec_bytes()) >= 252,
        is_char_boundary(msg.spec_bytes(), err_cut(msg.spec_bytes())),
        forall|k: int|
            err_cut(msg.spec_bytes()) < k <= 255 && k <= msg.spec_bytes().len() ==> !is_char_boundary(
                msg.spec_bytes(),
                k,
            ),
        err_buffer(msg.spec_bytes()).len() == 256,
        forall|i: int|
            0 <= i < err_cut(msg.spec_bytes()) ==> err_buffer(msg.spec_bytes())[i]
                == msg.spec_bytes()[i],
        forall|i: int| err_cut(msg.spec_bytes()) <= i < 256 ==> err_buffer(msg.spec_bytes())[i] == 0,
{
    let bytes = msg.spec_bytes();
    encode_utf8_valid_utf8(msg@);
    is_char_boundary_start_end_of_seq(bytes);
    let top = if bytes.len() < 255 { bytes.len() as int } else { 255 };
    lemma_boundary_at_or_below(bytes, top);
    lemma_boundary_at_or_below_is_largest(bytes, top);
    if bytes.len() > 255 {
        let b = lemma_boundary_within_three(bytes, 255);
        assert(err_cut(bytes) >= b);
    }
}

/// An optional URL or icon is absent exactly when its buffer is empty or starts with a
/// NUL byte; when present it holds the text the buffer reads as.
pub proof fn lemma_optional_text_absent_iff_empty(opt: Option<String>, buf: Seq<u8>)
    requires
        optional_reads_as(opt, buf),
    ensures
        opt is None <==> (buf.len() == 0 || buf[0] == 0),
        opt matches Some(s) ==> reads_as(s@, buf) && s@.len() > 0,
{
    if buf.len() > 0 && buf[0] != 0 {
        lemma_c_str_len_props(buf);
        lemma_c_str_len_bound(buf);
        assert(c_str_len(buf) != 0);
    }
}

} // verus!
