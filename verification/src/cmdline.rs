//! The kernel command line: its grammar and the configuration it stands for.
//!
//! A command line is a run of tokens between whitespace. Four kinds of token
//! are read, each by its prefix; every other token is passed over.
//!
//! | token                         | effect                            |
//! |-------------------------------|-----------------------------------|
//! | `init.virtiofs=T:P[:Y],...`   | replaces the virtiofs mounts      |
//! | `init.symlinks=S:D,...`       | replaces the symlinks             |
//! | `init.env.NAME=VALUE`         | sets one environment variable     |
//! | `init.cmd=COMMAND`            | replaces the command              |
//!
//! [`parse`] is the grammar as a function on character sequences;
//! [`parse_cmdline`] computes it.

use crate::env::EnvVars;
use crate::text::{
    after_prefix, chars_of, cut, fields, is_whitespace, lemma_cut_join, lemma_cut_none,
    lemma_field_count, lemma_fields_join, lemma_plain_field, lemma_plain_word, lemma_words_join,
    lemma_words_none, plain, separators_in, split_fields, split_once, split_words, strip_prefix,
    text_of, views, words, Separator,
};
use vstd::prelude::*;

verus! {

/// A virtiofs share to mount.
#[derive(Debug, Clone, PartialEq)]
pub struct VirtiofsMount {
    /// Virtiofs tag to mount
    pub tag: String,
    /// Path to mount at
    pub path: String,
    /// Whether to create overlayfs with writable layer
    pub with_overlay: bool,
}

/// A `VirtiofsMount` as plain values.
pub struct VirtiofsMountView {
    pub tag: Seq<char>,
    pub path: Seq<char>,
    pub with_overlay: bool,
}

impl View for VirtiofsMount {
    type V = VirtiofsMountView;

    open spec fn view(&self) -> VirtiofsMountView {
        VirtiofsMountView { tag: self.tag@, path: self.path@, with_overlay: self.with_overlay }
    }
}

impl VirtiofsMountView {
    /// Whether the mount names a share and a place: neither its tag nor its
    /// path is empty. The grammar does not ask for it: `:` is an item of two
    /// fields, both empty.
    pub open spec fn well_formed(self) -> bool {
        self.tag.len() > 0 && self.path.len() > 0
    }
}

impl VirtiofsMount {
    /// Tells whether the mount names a share and a place.
    pub fn is_well_formed(&self) -> (ok: bool)
        ensures
            ok == self@.well_formed(),
    {
        !self.tag.as_str().is_empty() && !self.path.as_str().is_empty()
    }
}

/// A symlink to create.
#[derive(Debug, Clone, PartialEq)]
pub struct Symlink {
    /// Source path for symlink
    pub source: String,
    /// Target path to link to
    pub target: String,
}

/// A `Symlink` as plain values.
pub struct SymlinkView {
    pub source: Seq<char>,
    pub target: Seq<char>,
}

impl View for Symlink {
    type V = SymlinkView;

    open spec fn view(&self) -> SymlinkView {
        SymlinkView { source: self.source@, target: self.target@ }
    }
}

/// Parsed init configuration from the kernel command line.
#[derive(Debug, PartialEq)]
pub struct Config {
    /// Virtiofs mounts to create
    pub virtiofs_mounts: Vec<VirtiofsMount>,
    /// Symlinks to create
    pub symlinks: Vec<Symlink>,
    /// Environment variables to set
    pub env_vars: EnvVars,
    /// Command to execute
    pub command: Option<String>,
}

/// A `Config` as plain values.
pub struct ConfigView {
    pub virtiofs_mounts: Seq<VirtiofsMountView>,
    pub symlinks: Seq<SymlinkView>,
    pub env_vars: Map<Seq<char>, Seq<char>>,
    pub command: Option<Seq<char>>,
}

impl ConfigView {
    /// The configuration of an empty command line.
    pub open spec fn empty() -> ConfigView {
        ConfigView {
            virtiofs_mounts: Seq::empty(),
            symlinks: Seq::empty(),
            env_vars: Map::empty(),
            command: None,
        }
    }
}

/// The mounts in `v` as plain values.
pub open spec fn mount_views(v: Seq<VirtiofsMount>) -> Seq<VirtiofsMountView> {
    Seq::new(v.len(), |i: int| v[i]@)
}

/// The symlinks in `v` as plain values.
pub open spec fn symlink_views(v: Seq<Symlink>) -> Seq<SymlinkView> {
    Seq::new(v.len(), |i: int| v[i]@)
}

impl View for Config {
    type V = ConfigView;

    open spec fn view(&self) -> ConfigView {
        ConfigView {
            virtiofs_mounts: mount_views(self.virtiofs_mounts@),
            symlinks: symlink_views(self.symlinks@),
            env_vars: self.env_vars@,
            command: text_of(self.command),
        }
    }
}

impl Default for Config {
    fn default() -> (config: Config)
        ensures
            config@ == ConfigView::empty(),
    {
        let config = Config {
            virtiofs_mounts: Vec::new(),
            symlinks: Vec::new(),
            env_vars: EnvVars::new(),
            command: None,
        };
        assert(config@.virtiofs_mounts == Seq::<VirtiofsMountView>::empty());
        assert(config@.symlinks == Seq::<SymlinkView>::empty());
        config
    }
}

/// Why a command line was refused. Each variant holds the list item that is
/// malformed.
#[derive(Debug, Clone, PartialEq, Eq)]
pub enum ParseError {
    /// An item of `init.virtiofs=` that has neither two nor three fields.
    InvalidVirtiofsMount(String),
    /// An item of `init.symlinks=` without a `:`.
    InvalidSymlink(String),
}

/// A `ParseError` as plain values.
pub enum ParseErrorView {
    InvalidVirtiofsMount(Seq<char>),
    InvalidSymlink(Seq<char>),
}

impl View for ParseError {
    type V = ParseErrorView;

    open spec fn view(&self) -> ParseErrorView {
        match self {
            ParseError::InvalidVirtiofsMount(item) => ParseErrorView::InvalidVirtiofsMount(item@),
            ParseError::InvalidSymlink(item) => ParseErrorView::InvalidSymlink(item@),
        }
    }
}

impl ParseErrorView {
    /// The error as a sentence: what is wrong, and the item.
    pub open spec fn message(self) -> Seq<char> {
        match self {
            ParseErrorView::InvalidVirtiofsMount(item) => "Invalid virtiofs mount spec: "@ + item,
            ParseErrorView::InvalidSymlink(item) => "Invalid symlink spec: "@ + item,
        }
    }
}

impl ParseError {
    /// The error as a sentence: what is wrong, and the item.
    pub fn message(&self) -> (text: String)
        ensures
            text@ == self@.message(),
    {
        match self {
            ParseError::InvalidVirtiofsMount(item) => {
                "Invalid virtiofs mount spec: ".to_owned().concat(item.as_str())
            },
            ParseError::InvalidSymlink(item) => {
                "Invalid symlink spec: ".to_owned().concat(item.as_str())
            },
        }
    }
}

/// The separator of list items.
pub open spec fn comma() -> Separator {
    Separator::Char(',')
}

/// The separator of an item's fields.
pub open spec fn colon() -> Separator {
    Separator::Char(':')
}

/// The mount that one item of `init.virtiofs=` stands for: `tag:path`, or
/// `tag:path:flag`, where the flag `Y` and no other asks for an overlay.
/// `None` where the item has neither two nor three fields.
pub open spec fn mount_of(item: Seq<char>) -> Option<VirtiofsMountView> {
    let f = fields(item, colon());
    if f.len() == 2 {
        Some(VirtiofsMountView { tag: f[0], path: f[1], with_overlay: false })
    } else if f.len() == 3 {
        Some(VirtiofsMountView { tag: f[0], path: f[1], with_overlay: f[2] == seq!['Y'] })
    } else {
        None
    }
}

/// The symlink that one item of `init.symlinks=` stands for: the item cut at
/// its first `:`. `None` where it holds no `:`.
pub open spec fn symlink_of(item: Seq<char>) -> Option<SymlinkView> {
    match cut(item, colon()) {
        Some((source, target)) => Some(SymlinkView { source, target }),
        None => None,
    }
}

/// What `items` stand for, one by one and in order, or the first item that
/// `read` refuses.
pub open spec fn read_all<T>(
    items: Seq<Seq<char>>,
    read: spec_fn(Seq<char>) -> Option<T>,
) -> Result<Seq<T>, Seq<char>>
    decreases items.len(),
{
    if items.len() == 0 {
        Ok(Seq::empty())
    } else {
        match read_all(items.drop_last(), read) {
            Err(item) => Err(item),
            Ok(done) => match read(items.last()) {
                Some(x) => Ok(done.push(x)),
                None => Err(items.last()),
            },
        }
    }
}

/// The mounts that the value of `init.virtiofs=` lists. Empty items are
/// skipped; one malformed item refuses the whole list.
pub open spec fn mounts_of(value: Seq<char>) -> Result<Seq<VirtiofsMountView>, ParseErrorView> {
    match read_all(words(value, comma()), |item: Seq<char>| mount_of(item)) {
        Ok(mounts) => Ok(mounts),
        Err(item) => Err(ParseErrorView::InvalidVirtiofsMount(item)),
    }
}

/// The symlinks that the value of `init.symlinks=` lists. Empty items are
/// skipped; one malformed item refuses the whole list.
pub open spec fn symlinks_of(value: Seq<char>) -> Result<Seq<SymlinkView>, ParseErrorView> {
    match read_all(words(value, comma()), |item: Seq<char>| symlink_of(item)) {
        Ok(symlinks) => Ok(symlinks),
        Err(item) => Err(ParseErrorView::InvalidSymlink(item)),
    }
}

/// A token of the command line, by kind, with what follows its prefix.
#[derive(Debug, Clone, Copy)]
pub enum Token<'a> {
    /// `init.virtiofs=` and the list of mounts.
    Virtiofs(&'a str),
    /// `init.symlinks=` and the list of symlinks.
    Symlinks(&'a str),
    /// `init.env.`, a name, `=` and a value.
    Env(&'a str, &'a str),
    /// `init.cmd=` and the command.
    Command(&'a str),
    /// Any other token.
    Other,
}

/// A `Token` as plain values.
pub enum TokenView {
    Virtiofs(Seq<char>),
    Symlinks(Seq<char>),
    Env(Seq<char>, Seq<char>),
    Command(Seq<char>),
    Other,
}

impl<'a> View for Token<'a> {
    type V = TokenView;

    open spec fn view(&self) -> TokenView {
        match self {
            Token::Virtiofs(value) => TokenView::Virtiofs(value@),
            Token::Symlinks(value) => TokenView::Symlinks(value@),
            Token::Env(name, value) => TokenView::Env(name@, value@),
            Token::Command(value) => TokenView::Command(value@),
            Token::Other => TokenView::Other,
        }
    }
}

/// The kind of `token`. An `init.env.` token without `=` is of no kind.
pub open spec fn kind_of(token: Seq<char>) -> TokenView {
    if let Some(value) = after_prefix(token, "init.virtiofs="@) {
        TokenView::Virtiofs(value)
    } else if let Some(value) = after_prefix(token, "init.symlinks="@) {
        TokenView::Symlinks(value)
    } else if let Some(rest) = after_prefix(token, "init.env."@) {
        match cut(rest, Separator::Char('=')) {
            Some((name, value)) => TokenView::Env(name, value),
            None => TokenView::Other,
        }
    } else if let Some(value) = after_prefix(token, "init.cmd="@) {
        TokenView::Command(value)
    } else {
        TokenView::Other
    }
}

/// `config` after one more token: a list replaces the list, a variable is
/// set over the value it had, a command replaces the command.
pub open spec fn apply(config: ConfigView, token: Seq<char>) -> Result<ConfigView, ParseErrorView> {
    match kind_of(token) {
        TokenView::Virtiofs(value) => match mounts_of(value) {
            Ok(mounts) => Ok(ConfigView { virtiofs_mounts: mounts, ..config }),
            Err(e) => Err(e),
        },
        TokenView::Symlinks(value) => match symlinks_of(value) {
            Ok(symlinks) => Ok(ConfigView { symlinks, ..config }),
            Err(e) => Err(e),
        },
        TokenView::Env(name, value) => Ok(
            ConfigView { env_vars: config.env_vars.insert(name, value), ..config },
        ),
        TokenView::Command(value) => Ok(ConfigView { command: Some(value), ..config }),
        TokenView::Other => Ok(config),
    }
}

/// The configuration that `tokens` give, read from first to last, or the
/// error of the first token that is refused.
pub open spec fn config_of(tokens: Seq<Seq<char>>) -> Result<ConfigView, ParseErrorView>
    decreases tokens.len(),
{
    if tokens.len() == 0 {
        Ok(ConfigView::empty())
    } else {
        match config_of(tokens.drop_last()) {
            Err(e) => Err(e),
            Ok(config) => apply(config, tokens.last()),
        }
    }
}

/// The configuration that the command line `line` stands for.
pub open spec fn parse(line: Seq<char>) -> Result<ConfigView, ParseErrorView> {
    config_of(words(line, Separator::Whitespace))
}

/// Reading one item more: the first `k + 1` items are read as the first `k`
/// and then item `k`.
pub proof fn lemma_read_next<T>(
    items: Seq<Seq<char>>,
    read: spec_fn(Seq<char>) -> Option<T>,
    k: int,
)
    requires
        0 <= k < items.len(),
    ensures
        read_all(items.take(k + 1), read) == match read_all(items.take(k), read) {
            Err(item) => Err(item),
            Ok(done) => match read(items[k]) {
                Some(x) => Ok(done.push(x)),
                None => Err(items[k]),
            },
        },
{
    assert(items.take(k + 1).drop_last() == items.take(k));
}

/// An item that is refused stays refused, whatever follows it.
pub proof fn lemma_read_refused<T>(
    items: Seq<Seq<char>>,
    read: spec_fn(Seq<char>) -> Option<T>,
    k: int,
)
    requires
        0 <= k <= items.len(),
        read_all(items.take(k), read) is Err,
    ensures
        read_all(items, read) == read_all(items.take(k), read),
    decreases items.len() - k,
{
    if k < items.len() {
        lemma_read_next(items, read, k);
        lemma_read_refused(items, read, k + 1);
    } else {
        assert(items.take(k) == items);
    }
}

/// `read_all` succeeds exactly where `read` accepts every item, and then
/// holds what `read` gives for each; it fails with the first item that `read`
/// refuses.
pub proof fn lemma_read_all<T>(items: Seq<Seq<char>>, read: spec_fn(Seq<char>) -> Option<T>)
    ensures
        match read_all(items, read) {
            Ok(all) => {
                &&& all.len() == items.len()
                &&& forall|i: int| 0 <= i < items.len() ==> read(#[trigger] items[i]) == Some(all[i])
            },
            Err(item) => exists|k: int|
                {
                    &&& 0 <= k < items.len()
                    &&& #[trigger] items[k] == item
                    &&& read(items[k]) is None
                    &&& forall|i: int| 0 <= i < k ==> read(#[trigger] items[i]) is Some
                },
        },
    decreases items.len(),
{
    if items.len() > 0 {
        let front = items.drop_last();
        let last = items.len() - 1;
        lemma_read_all(front, read);
        match read_all(front, read) {
            Ok(done) => {
                assert forall|i: int| 0 <= i < last implies read(#[trigger] items[i]) is Some by {
                    assert(items[i] == front[i]);
                }
                match read(items.last()) {
                    Some(x) => {
                        let all = done.push(x);
                        assert forall|i: int| 0 <= i < items.len() implies read(
                            #[trigger] items[i],
                        ) == Some(all[i]) by {
                            if i < last {
                                assert(items[i] == front[i]);
                            }
                        }
                    },
                    None => {
                        assert(items[last] == items.last());
                    },
                }
            },
            Err(item) => {
                let k = choose|k: int|
                    {
                        &&& 0 <= k < front.len()
                        &&& #[trigger] front[k] == item
                        &&& read(front[k]) is None
                        &&& forall|i: int| 0 <= i < k ==> read(#[trigger] front[i]) is Some
                    };
                assert forall|i: int| 0 <= i < k implies read(#[trigger] items[i]) is Some by {
                    assert(items[i] == front[i]);
                }
            },
        }
    }
}

/// Reading one token more: the first `k + 1` tokens give what the first `k`
/// give, and then token `k` applied.
pub proof fn lemma_config_next(tokens: Seq<Seq<char>>, k: int)
    requires
        0 <= k < tokens.len(),
    ensures
        config_of(tokens.take(k + 1)) == match config_of(tokens.take(k)) {
            Err(e) => Err(e),
            Ok(config) => apply(config, tokens[k]),
        },
{
    assert(tokens.take(k + 1).drop_last() == tokens.take(k));
}

/// A command line that is refused at one token stays refused, whatever
/// follows.
pub proof fn lemma_config_refused(tokens: Seq<Seq<char>>, k: int)
    requires
        0 <= k <= tokens.len(),
        config_of(tokens.take(k)) is Err,
    ensures
        config_of(tokens) == config_of(tokens.take(k)),
    decreases tokens.len() - k,
{
    if k < tokens.len() {
        lemma_config_next(tokens, k);
        lemma_config_refused(tokens, k + 1);
    } else {
        assert(tokens.take(k) == tokens);
    }
}

/// One token more: the tokens with `token` at their end give what they give
/// without it, and then `token` applied.
pub proof fn lemma_config_push(tokens: Seq<Seq<char>>, token: Seq<char>)
    ensures
        config_of(tokens.push(token)) == match config_of(tokens) {
            Err(e) => Err(e),
            Ok(config) => apply(config, token),
        },
{
    assert(tokens.push(token).drop_last() == tokens);
}

/// A command line without tokens, be it empty or all blanks, stands for the
/// empty configuration.
pub proof fn lemma_blank_line(line: Seq<char>)
    requires
        forall|j: int| 0 <= j < line.len() ==> is_whitespace(#[trigger] line[j]),
    ensures
        parse(line) == Ok::<ConfigView, ParseErrorView>(ConfigView::empty()),
{
    lemma_words_none(line, Separator::Whitespace);
}

/// One token more on the line: a command line with a token added behind a
/// blank stands for what it stood for before, and then that token applied.
pub proof fn lemma_parse_appended(line: Seq<char>, token: Seq<char>)
    requires
        token.len() > 0,
        plain(token, Separator::Whitespace),
    ensures
        parse(line + seq![' '] + token) == match parse(line) {
            Err(e) => Err(e),
            Ok(config) => apply(config, token),
        },
{
    let blank = Separator::Whitespace;
    lemma_words_join(line, ' ', token, blank);
    lemma_plain_word(token, blank);
    assert(words(line, blank) + seq![token] == words(line, blank).push(token));
    lemma_config_push(words(line, blank), token);
}

/// A token that begins with `init.virtiofs=` is of that kind, and its value
/// is all that follows.
pub proof fn lemma_kind_virtiofs(value: Seq<char>)
    ensures
        kind_of("init.virtiofs="@ + value) == TokenView::Virtiofs(value),
{
    reveal_strlit("init.virtiofs=");
    let token = "init.virtiofs="@ + value;
    assert(token.skip(14) =~= value);
}

/// A token that begins with `init.symlinks=` is of that kind, and its value
/// is all that follows.
pub proof fn lemma_kind_symlinks(value: Seq<char>)
    ensures
        kind_of("init.symlinks="@ + value) == TokenView::Symlinks(value),
{
    reveal_strlit("init.virtiofs=");
    reveal_strlit("init.symlinks=");
    let token = "init.symlinks="@ + value;
    if "init.virtiofs="@.is_prefix_of(token) {
        assert(token.subrange(0, 14)[5] == 'v');
    }
    assert(token.skip(14) =~= value);
}

/// A token made of `init.env.`, a name without `=`, `=` and a value is of
/// the kind that sets the name to the value. The value may hold `=`.
pub proof fn lemma_kind_env(name: Seq<char>, value: Seq<char>)
    requires
        plain(name, Separator::Char('=')),
    ensures
        kind_of("init.env."@ + name + seq!['='] + value) == TokenView::Env(name, value),
{
    reveal_strlit("init.virtiofs=");
    reveal_strlit("init.symlinks=");
    reveal_strlit("init.env.");
    let token = "init.env."@ + name + seq!['='] + value;
    if "init.virtiofs="@.is_prefix_of(token) {
        assert(token.subrange(0, 14)[5] == 'v');
    }
    if "init.symlinks="@.is_prefix_of(token) {
        assert(token.subrange(0, 14)[5] == 's');
    }
    assert(token.skip(9) =~= name + seq!['='] + value);
    lemma_cut_join(name, '=', value, Separator::Char('='));
}

/// A token that begins with `init.cmd=` is of that kind, and its value is
/// all that follows.
pub proof fn lemma_kind_command(value: Seq<char>)
    ensures
        kind_of("init.cmd="@ + value) == TokenView::Command(value),
{
    reveal_strlit("init.virtiofs=");
    reveal_strlit("init.symlinks=");
    reveal_strlit("init.env.");
    reveal_strlit("init.cmd=");
    let token = "init.cmd="@ + value;
    if "init.virtiofs="@.is_prefix_of(token) {
        assert(token.subrange(0, 14)[5] == 'v');
    }
    if "init.symlinks="@.is_prefix_of(token) {
        assert(token.subrange(0, 14)[5] == 's');
    }
    if "init.env."@.is_prefix_of(token) {
        assert(token.subrange(0, 9)[5] == 'e');
    }
    assert(token.skip(9) =~= value);
}

/// The last command wins: whatever the tokens before it hold, after an
/// `init.cmd=` token the command is that token's value, and nothing else has
/// changed.
pub proof fn lemma_last_command_wins(tokens: Seq<Seq<char>>, value: Seq<char>)
    ensures
        config_of(tokens.push("init.cmd="@ + value)) == match config_of(tokens) {
            Err(e) => Err(e),
            Ok(config) => Ok(ConfigView { command: Some(value), ..config }),
        },
{
    lemma_kind_command(value);
    lemma_config_push(tokens, "init.cmd="@ + value);
}

/// A list replaces the list: whatever mounts the tokens before it gave,
/// after an `init.virtiofs=` token the mounts are those of that token's
/// value alone, and a malformed value refuses the command line.
pub proof fn lemma_last_mounts_win(tokens: Seq<Seq<char>>, value: Seq<char>)
    ensures
        config_of(tokens.push("init.virtiofs="@ + value)) == match config_of(tokens) {
            Err(e) => Err(e),
            Ok(config) => match mounts_of(value) {
                Ok(mounts) => Ok(ConfigView { virtiofs_mounts: mounts, ..config }),
                Err(e) => Err(e),
            },
        },
{
    lemma_kind_virtiofs(value);
    lemma_config_push(tokens, "init.virtiofs="@ + value);
}

/// A list replaces the list: after an `init.symlinks=` token the symlinks
/// are those of that token's value alone, and a malformed value refuses the
/// command line.
pub proof fn lemma_last_symlinks_win(tokens: Seq<Seq<char>>, value: Seq<char>)
    ensures
        config_of(tokens.push("init.symlinks="@ + value)) == match config_of(tokens) {
            Err(e) => Err(e),
            Ok(config) => match symlinks_of(value) {
                Ok(symlinks) => Ok(ConfigView { symlinks, ..config }),
                Err(e) => Err(e),
            },
        },
{
    lemma_kind_symlinks(value);
    lemma_config_push(tokens, "init.symlinks="@ + value);
}

/// Variables accumulate: an `init.env.NAME=VALUE` token sets `NAME` to
/// `VALUE`, over the value it had, and leaves every other variable as it
/// was.
pub proof fn lemma_env_accumulates(tokens: Seq<Seq<char>>, name: Seq<char>, value: Seq<char>)
    requires
        plain(name, Separator::Char('=')),
    ensures
        config_of(tokens.push("init.env."@ + name + seq!['='] + value)) == match config_of(tokens) {
            Err(e) => Err(e),
            Ok(config) => Ok(
                ConfigView { env_vars: config.env_vars.insert(name, value), ..config },
            ),
        },
{
    lemma_kind_env(name, value);
    lemma_config_push(tokens, "init.env."@ + name + seq!['='] + value);
}

/// A token of no kind changes nothing.
pub proof fn lemma_other_token_ignored(tokens: Seq<Seq<char>>, token: Seq<char>)
    requires
        kind_of(token) is Other,
    ensures
        config_of(tokens.push(token)) == config_of(tokens),
{
    lemma_config_push(tokens, token);
}

/// An item is a mount exactly where it holds one `:` or two.
pub proof fn lemma_mount_field_count(item: Seq<char>)
    ensures
        mount_of(item) is Some <==> (separators_in(item, colon()) == 1 || separators_in(
            item,
            colon(),
        ) == 2),
{
    lemma_field_count(item, colon());
}

/// `tag:path` is the mount of `tag` at `path`, without overlay.
pub proof fn lemma_mount_plain(tag: Seq<char>, path: Seq<char>)
    requires
        plain(tag, colon()),
        plain(path, colon()),
    ensures
        mount_of(tag + seq![':'] + path) == Some(
            VirtiofsMountView { tag, path, with_overlay: false },
        ),
{
    lemma_fields_join(tag, ':', path, colon());
    lemma_plain_field(path, colon());
}

/// `tag:path:flag` is the mount of `tag` at `path`, with an overlay exactly
/// where the flag is the one letter `Y`.
pub proof fn lemma_mount_flag(tag: Seq<char>, path: Seq<char>, flag: Seq<char>)
    requires
        plain(tag, colon()),
        plain(path, colon()),
        plain(flag, colon()),
    ensures
        mount_of(tag + seq![':'] + path + seq![':'] + flag) == Some(
            VirtiofsMountView { tag, path, with_overlay: flag == seq!['Y'] },
        ),
{
    let item = tag + seq![':'] + path + seq![':'] + flag;
    let rest = path + seq![':'] + flag;
    assert(item =~= tag + seq![':'] + rest);
    lemma_fields_join(tag, ':', rest, colon());
    lemma_fields_join(path, ':', flag, colon());
    lemma_plain_field(flag, colon());
}

/// A symlink is cut at the first `:`: a source without `:`, followed by `:`
/// and a target, is the symlink from that source to that target, whatever the
/// target holds.
pub proof fn lemma_symlink_first_colon(source: Seq<char>, target: Seq<char>)
    requires
        plain(source, colon()),
    ensures
        symlink_of(source + seq![':'] + target) == Some(SymlinkView { source, target }),
{
    lemma_cut_join(source, ':', target, colon());
}

/// An item is a symlink exactly where it holds a `:`.
pub proof fn lemma_symlink_needs_colon(item: Seq<char>)
    ensures
        symlink_of(item) is None <==> plain(item, colon()),
{
    lemma_cut_none(item, colon());
}

/// Whether `s` is the one letter `Y`.
fn is_yes(s: &str) -> (yes: bool)
    ensures
        yes == (s@ == seq!['Y']),
{
    let chars = chars_of(s);
    if chars.len() == 1 && chars[0] == 'Y' {
        assert(s@ =~= seq!['Y']);
        true
    } else {
        false
    }
}

/// Reads one item of `init.virtiofs=`.
pub fn parse_virtiofs_mount(item: &str) -> (mount: Option<VirtiofsMount>)
    ensures
        match mount {
            Some(m) => mount_of(item@) == Some(m@),
            None => mount_of(item@) is None,
        },
{
    let parts = split_fields(item, Separator::Char(':'));
    if parts.len() == 2 {
        Some(VirtiofsMount { tag: parts[0].to_owned(), path: parts[1].to_owned(), with_overlay: false })
    } else if parts.len() == 3 {
        let with_overlay = is_yes(parts[2]);
        Some(VirtiofsMount { tag: parts[0].to_owned(), path: parts[1].to_owned(), with_overlay })
    } else {
        None
    }
}

/// Reads one item of `init.symlinks=`.
pub fn parse_symlink(item: &str) -> (symlink: Option<Symlink>)
    ensures
        match symlink {
            Some(s) => symlink_of(item@) == Some(s@),
            None => symlink_of(item@) is None,
        },
{
    match split_once(item, Separator::Char(':')) {
        Some((source, target)) => Some(
            Symlink { source: source.to_owned(), target: target.to_owned() },
        ),
        None => None,
    }
}

/// Reads the value of `init.virtiofs=`: a list of mounts between commas.
pub fn parse_virtiofs_mounts(value: &str) -> (r: Result<Vec<VirtiofsMount>, ParseError>)
    ensures
        match r {
            Ok(mounts) => mounts_of(value@) == Ok::<Seq<VirtiofsMountView>, ParseErrorView>(
                mount_views(mounts@),
            ),
            Err(e) => mounts_of(value@) == Err::<Seq<VirtiofsMountView>, ParseErrorView>(e@),
        },
{
    let items = split_words(value, Separator::Char(','));
    let ghost all = words(value@, comma());
    let ghost read = |item: Seq<char>| mount_of(item);
    let mut mounts: Vec<VirtiofsMount> = Vec::new();
    let mut k: usize = 0;
    assert(mount_views(mounts@) == Seq::<VirtiofsMountView>::empty());
    while k < items.len()
        invariant
            views(items@) == all,
            all == words(value@, comma()),
            read == (|item: Seq<char>| mount_of(item)),
            k <= items.len(),
            read_all(all.take(k as int), read) == Ok::<Seq<VirtiofsMountView>, Seq<char>>(
                mount_views(mounts@),
            ),
        decreases items.len() - k,
    {
        let item: &str = items[k];
        proof {
            lemma_read_next(all, read, k as int);
        }
        match parse_virtiofs_mount(item) {
            Some(mount) => {
                assert(mount_views(mounts@.push(mount)) == mount_views(mounts@).push(mount@));
                mounts.push(mount);
            },
            None => {
                proof {
                    lemma_read_refused(all, read, k + 1);
                }
                return Err(ParseError::InvalidVirtiofsMount(item.to_owned()));
            },
        }
        k += 1;
    }
    assert(all.take(k as int) == all);
    Ok(mounts)
}

/// Reads the value of `init.symlinks=`: a list of symlinks between commas.
pub fn parse_symlinks(value: &str) -> (r: Result<Vec<Symlink>, ParseError>)
    ensures
        match r {
            Ok(symlinks) => symlinks_of(value@) == Ok::<Seq<SymlinkView>, ParseErrorView>(
                symlink_views(symlinks@),
            ),
            Err(e) => symlinks_of(value@) == Err::<Seq<SymlinkView>, ParseErrorView>(e@),
        },
{
    let items = split_words(value, Separator::Char(','));
    let ghost all = words(value@, comma());
    let ghost read = |item: Seq<char>| symlink_of(item);
    let mut symlinks: Vec<Symlink> = Vec::new();
    let mut k: usize = 0;
    assert(symlink_views(symlinks@) == Seq::<SymlinkView>::empty());
    while k < items.len()
        invariant
            views(items@) == all,
            all == words(value@, comma()),
            read == (|item: Seq<char>| symlink_of(item)),
            k <= items.len(),
            read_all(all.take(k as int), read) == Ok::<Seq<SymlinkView>, Seq<char>>(
                symlink_views(symlinks@),
            ),
        decreases items.len() - k,
    {
        let item: &str = items[k];
        proof {
            lemma_read_next(all, read, k as int);
        }
        match parse_symlink(item) {
            Some(symlink) => {
                assert(symlink_views(symlinks@.push(symlink)) == symlink_views(symlinks@).push(
                    symlink@,
                ));
                symlinks.push(symlink);
            },
            None => {
                proof {
                    lemma_read_refused(all, read, k + 1);
                }
                return Err(ParseError::InvalidSymlink(item.to_owned()));
            },
        }
        k += 1;
    }
    assert(all.take(k as int) == all);
    Ok(symlinks)
}

/// Tells the kind of one token, and hands out what follows its prefix.
pub fn classify<'a>(token: &'a str) -> (kind: Token<'a>)
    ensures
        kind@ == kind_of(token@),
{
    if let Some(value) = strip_prefix(token, "init.virtiofs=") {
        return Token::Virtiofs(value);
    }
    if let Some(value) = strip_prefix(token, "init.symlinks=") {
        return Token::Symlinks(value);
    }
    if let Some(rest) = strip_prefix(token, "init.env.") {
        return match split_once(rest, Separator::Char('=')) {
            Some((name, value)) => Token::Env(name, value),
            None => Token::Other,
        };
    }
    if let Some(value) = strip_prefix(token, "init.cmd=") {
        return Token::Command(value);
    }
    Token::Other
}

/// Parse the kernel command line into a `Config`.
///
/// Supports `init.virtiofs`, `init.symlinks`, `init.env.NAME` and `init.cmd`.
/// Succeeds unless a list item is malformed; the error then holds the first
/// such item.
pub fn parse_cmdline(cmdline: &str) -> (r: Result<Config, ParseError>)
    ensures
        match r {
            Ok(config) => parse(cmdline@) == Ok::<ConfigView, ParseErrorView>(config@),
            Err(e) => parse(cmdline@) == Err::<ConfigView, ParseErrorView>(e@),
        },
{
    let tokens = split_words(cmdline, Separator::Whitespace);
    let ghost all = words(cmdline@, Separator::Whitespace);
    let mut config = Config::default();
    let mut k: usize = 0;
    while k < tokens.len()
        invariant
            views(tokens@) == all,
            all == words(cmdline@, Separator::Whitespace),
            k <= tokens.len(),
            config_of(all.take(k as int)) == Ok::<ConfigView, ParseErrorView>(config@),
        decreases tokens.len() - k,
    {
        let token: &str = tokens[k];
        proof {
            lemma_config_next(all, k as int);
        }
        match classify(token) {
            Token::Virtiofs(value) => {
                match parse_virtiofs_mounts(value) {
                    Ok(mounts) => {
                        config.virtiofs_mounts = mounts;
                    },
                    Err(e) => {
                        proof {
                            lemma_config_refused(all, k + 1);
                        }
                        return Err(e);
                    },
                }
            },
            Token::Symlinks(value) => {
                match parse_symlinks(value) {
                    Ok(symlinks) => {
                        config.symlinks = symlinks;
                    },
                    Err(e) => {
                        proof {
                            lemma_config_refused(all, k + 1);
                        }
                        return Err(e);
                    },
                }
            },
            Token::Env(name, value) => {
                config.env_vars.insert(name.to_owned(), value.to_owned());
            },
            Token::Command(value) => {
                config.command = Some(value.to_owned());
            },
            Token::Other => {},
        }
        k += 1;
    }
    assert(all.take(k as int) == all);
    Ok(config)
}

} // verus!
