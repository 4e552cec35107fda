use crate::markov::{occurrences, bump, Key, Markov};
use crate::types::{
    decimal_value, is_u64_text, parse_u64, push_char, push_str, unsigned_digits, users_view, Id,
    User, UserView,
};
use crate::json::str_equal;
use vstd::prelude::*;
use vstd::string::StrSliceExecFns;

verus! {

/// A character with the Unicode `White_Space` property, as `char::is_whitespace` tests it.
pub open spec fn is_space(c: char) -> bool {
    ('\u{9}' <= c && c <= '\u{d}') || c == ' ' || c == '\u{85}' || c == '\u{a0}' || c
        == '\u{1680}' || ('\u{2000}' <= c && c <= '\u{200a}') || c == '\u{2028}' || c
        == '\u{2029}' || c == '\u{202f}' || c == '\u{205f}' || c == '\u{3000}'
}

fn is_space_char(c: char) -> (r: bool)
    ensures
        r == is_space(c),
{
    ('\u{9}' <= c && c <= '\u{d}') || c == ' ' || c == '\u{85}' || c == '\u{a0}' || c
        == '\u{1680}' || ('\u{2000}' <= c && c <= '\u{200a}') || c == '\u{2028}' || c
        == '\u{2029}' || c == '\u{202f}' || c == '\u{205f}' || c == '\u{3000}'
}

/// The words finished so far in a scan of `s`, and the word being read at its end.
pub open spec fn scan_words(s: Seq<char>) -> (Seq<Seq<char>>, Seq<char>)
    decreases s.len(),
{
    if s.len() == 0 {
        (Seq::empty(), Seq::empty())
    } else {
        let (done, cur) = scan_words(s.drop_last());
        if is_space(s.last()) {
            if cur.len() > 0 {
                (done.push(cur), Seq::empty())
            } else {
                (done, cur)
            }
        } else {
            (done, cur.push(s.last()))
        }
    }
}

/// The words of a text: its maximal runs of characters that are not white space.
pub open spec fn words_of(s: Seq<char>) -> Seq<Seq<char>> {
    let (done, cur) = scan_words(s);
    if cur.len() > 0 {
        done.push(cur)
    } else {
        done
    }
}

pub open spec fn texts_of(v: Seq<String>) -> Seq<Seq<char>> {
    v.map_values(|s: String| s@)
}

/// Splits a text into its words, as `str::split_whitespace` does.
pub fn split_words(s: &str) -> (r: Vec<String>)
    ensures
        texts_of(r@) == words_of(s@),
{
    let n = s.unicode_len();
    let mut done: Vec<String> = Vec::new();
    let mut cur = String::new();
    let mut i: usize = 0;
    assert(s@.take(0) =~= Seq::<char>::empty());
    while i < n
        invariant
            i <= n,
            n == s@.len(),
            (texts_of(done@), cur@) == scan_words(s@.take(i as int)),
        decreases n - i,
    {
        let c = s.get_char(i);
        assert(s@.take(i + 1).drop_last() =~= s@.take(i as int));
        assert(s@.take(i + 1).last() == c);
        if is_space_char(c) {
            if cur.unicode_len() > 0 {
                let ghost before = done@;
                let ghost word = cur@;
                done.push(cur);
                cur = String::new();
                assert(texts_of(done@) =~= texts_of(before).push(word));
            }
        } else {
            push_char(&mut cur, c);
        }
        i = i + 1;
    }
    assert(s@.take(n as int) =~= s@);
    if cur.unicode_len() > 0 {
        let ghost before = done@;
        done.push(cur);
        assert(texts_of(done@) =~= texts_of(before).push(scan_words(s@).1));
    }
    done
}

/// The id text of a word written as a user mention, `<@!id>`.
pub open spec fn mention_id(w: Seq<char>) -> Option<Seq<char>> {
    if w.len() >= 4 && w[0] == '<' && w[1] == '@' && w[2] == '!' && w.last() == '>' {
        Some(w.subrange(3, w.len() - 1))
    } else {
        None
    }
}

/// The first of the mentioned users whose id the text denotes.
pub open spec fn mentioned_user(mentions: Seq<UserView>, id: Seq<char>) -> Option<UserView>
    decreases mentions.len(),
{
    if mentions.len() == 0 {
        None
    } else if is_u64_text(id) && decimal_value(unsigned_digits(id)) == mentions[0].id {
        Some(mentions[0])
    } else {
        mentioned_user(mentions.drop_first(), id)
    }
}

/// A word as the chain learns it: a mention of a mentioned user becomes `` `name#tag` ``, any
/// other mention `` `<@!id>` ``, and every other word stays as it is.
pub open spec fn remembered(w: Seq<char>, mentions: Seq<UserView>) -> Seq<char> {
    match mention_id(w) {
        None => w,
        Some(id) => match mentioned_user(mentions, id) {
            Some(u) => "`"@ + u.username + "#"@ + u.discriminator + "`"@,
            None => "`<@!"@ + id + ">`"@,
        },
    }
}

/// Rewrites one word for the chain.
pub fn remember_word(w: &str, mentions: &Vec<User>) -> (r: String)
    ensures
        r@ == remembered(w@, users_view(mentions@)),
{
    let n = w.unicode_len();
    if !(n >= 4 && w.get_char(0) == '<' && w.get_char(1) == '@' && w.get_char(2) == '!'
        && w.get_char(n - 1) == '>') {
        return w.to_owned();
    }
    let id = w.substring_char(3, n - 1);
    assert(w@.last() == w@[n - 1]);
    assert(mention_id(w@) == Some(id@));
    let parsed = Id::parse(id);
    let mut i: usize = 0;
    let ghost all = users_view(mentions@);
    assert(all.skip(0) =~= all);
    while i < mentions.len()
        invariant
            i <= mentions@.len(),
            all == users_view(mentions@),
            mention_id(w@) == Some(id@),
            mentioned_user(all, id@) == mentioned_user(all.skip(i as int), id@),
            parsed is Ok <==> is_u64_text(id@),
            parsed matches Ok(p) ==> p.0 == decimal_value(unsigned_digits(id@)),
        decreases mentions@.len() - i,
    {
        assert(all.skip(i as int).drop_first() =~= all.skip(i + 1));
        let user = &mentions[i];
        match parsed {
            Ok(p) => if p == user.id {
                assert(all.skip(i as int)[0] == user@);

                let mut out = "`".to_owned();
                push_str(&mut out, user.username);
                push_str(&mut out, "#");
                push_str(&mut out, user.discriminator);
                push_str(&mut out, "`");
                assert(out@ =~= "`"@ + user.username@ + "#"@ + user.discriminator@ + "`"@);
                return out;
            },
            Err(_) => {},
        }
        i = i + 1;
    }
    let mut out = "`<@!".to_owned();
    push_str(&mut out, id);
    push_str(&mut out, ">`");
    out
}

/// The words of a message as the chain learns them.
pub open spec fn remembered_words(content: Seq<char>, mentions: Seq<UserView>) -> Seq<Seq<char>> {
    words_of(content).map_values(|w: Seq<char>| remembered(w, mentions))
}

pub fn remember_words(content: &str, mentions: &Vec<User>) -> (r: Vec<String>)
    ensures
        texts_of(r@) == remembered_words(content@, users_view(mentions@)),
{
    let words = split_words(content);
    let mut out: Vec<String> = Vec::new();
    let mut i: usize = 0;
    while i < words.len()
        invariant
            i <= words@.len(),
            texts_of(words@) == words_of(content@),
            texts_of(out@) =~= remembered_words(content@, users_view(mentions@)).take(i as int),
        decreases words@.len() - i,
    {
        let w = remember_word(words[i].as_str(), mentions);
        let ghost before = out@;
        let ghost all = remembered_words(content@, users_view(mentions@));
        assert(texts_of(words@)[i as int] == words@[i as int]@);
        assert(all[i as int] == remembered(words@[i as int]@, users_view(mentions@)));
        out.push(w);
        assert(texts_of(out@) =~= texts_of(before).push(w@));
        assert(all.take(i + 1) =~= all.take(i as int).push(all[i as int]));
        i = i + 1;
    }
    assert(remembered_words(content@, users_view(mentions@)).take(words@.len() as int)
        =~= remembered_words(content@, users_view(mentions@)));
    out
}

/// The shortest message that the chain learns from, in words.
pub const MIN_LEARNED_WORDS: usize = 3;

/// Teaches the chain a message: its rewritten words as a sentence, where it has at least three.
pub fn learn_message(markov: &mut Markov, content: &str, mentions: &Vec<User>)
    requires
        old(markov).wf(),
    ensures
        final(markov).wf(),
        remembered_words(content@, users_view(mentions@)).len() >= MIN_LEARNED_WORDS ==> forall|
            k: Key,
        | #[trigger]
            final(markov).weight(k) == bump(
                old(markov).weight(k),
                occurrences(
                    remembered_words(content@, users_view(mentions@)),
                    remembered_words(content@, users_view(mentions@)).len() as int + 1,
                    k,
                ),
            ),
        remembered_words(content@, users_view(mentions@)).len() < MIN_LEARNED_WORDS ==> forall|
            k: Key,
        | #[trigger] final(markov).weight(k) == old(markov).weight(k),
{
    let words = remember_words(content, mentions);
    if words.len() >= MIN_LEARNED_WORDS {
        markov.insert_sequence(words);
    }
}

/// Whether the text has the word `wot`, in any case.
pub open spec fn says_wot(content: Seq<char>) -> bool {
    exists|i: int|
        0 <= i < words_of(content).len() && lower_of(#[trigger] words_of(content)[i]) == "wot"@
}

/// The lower-case form of a text.
pub uninterp spec fn lower_of(s: Seq<char>) -> Seq<char>;

/// Relies on `str::to_lowercase`: the result depends on the text alone.
#[verifier::external_body]
fn lowercase(s: &str) -> (r: String)
    ensures
        r@ == lower_of(s@),
{
    s.to_lowercase()
}

/// Whether a message says `wot`, which the bot answers.
pub fn mentions_wot(content: &str) -> (r: bool)
    ensures
        r == says_wot(content@),
{
    let words = split_words(content);
    let mut i: usize = 0;
    while i < words.len()
        invariant
            i <= words@.len(),
            texts_of(words@) == words_of(content@),
            forall|j: int| 0 <= j < i ==> lower_of(#[trigger] words_of(content@)[j]) != "wot"@,
        decreases words@.len() - i,
    {
        let lower = lowercase(words[i].as_str());
        assert(words@[i as int]@ == words_of(content@)[i as int]);
        if lower.eq(&"wot".to_owned()) {
            return true;
        }
        i = i + 1;
    }
    false
}

/// The text that lists words: each followed by a space, or `Nothing!` where there are none.
pub open spec fn list_text(items: Seq<Seq<char>>) -> Seq<char> {
    if items.len() == 0 {
        "Nothing!"@
    } else {
        spaced(items)
    }
}

/// Words, each followed by a space.
pub open spec fn spaced(items: Seq<Seq<char>>) -> Seq<char>
    decreases items.len(),
{
    if items.len() == 0 {
        Seq::empty()
    } else {
        spaced(items.drop_last()) + items.last() + " "@
    }
}

/// Writes words, each followed by a space.
pub fn spaced_text(items: &Vec<String>) -> (r: String)
    ensures
        r@ == spaced(texts_of(items@)),
{
    let mut out = String::new();
    let mut i: usize = 0;
    assert(texts_of(items@).take(0) =~= Seq::<Seq<char>>::empty());
    while i < items.len()
        invariant
            i <= items@.len(),
            out@ == spaced(texts_of(items@).take(i as int)),
        decreases items@.len() - i,
    {
        assert(texts_of(items@).take(i + 1).drop_last() =~= texts_of(items@).take(i as int));
        push_str(&mut out, items[i].as_str());
        push_str(&mut out, " ");
        i = i + 1;
    }
    assert(texts_of(items@).take(items@.len() as int) =~= texts_of(items@));
    out
}

/// The reply that lists words.
pub fn list_message(items: &Vec<String>) -> (r: String)
    ensures
        r@ == list_text(texts_of(items@)),
{
    if items.len() == 0 {
        "Nothing!".to_owned()
    } else {
        spaced_text(items)
    }
}

/// Whether an id is in a list (the admins, the channels the bot does not learn from).
pub fn contains_id(ids: &Vec<Id>, id: Id) -> (r: bool)
    ensures
        r == exists|i: int| 0 <= i < ids@.len() && ids@[i] == id,
{
    let mut i: usize = 0;
    while i < ids.len()
        invariant
            i <= ids@.len(),
            forall|j: int| 0 <= j < i ==> ids@[j] != id,
        decreases ids@.len() - i,
    {
        if ids[i] == id {
            return true;
        }
        i = i + 1;
    }
    false
}

/// The weight below which a clean drops a transition.
pub const CLEAN_THRESHOLD: usize = 2;

/// Where a walk back through a channel's history stands: the oldest message seen on the last
/// page (its id is taken for the next request), the oldest timestamp seen at all, and how many
/// messages were read.
#[derive(Clone, Copy, Debug)]
pub struct LearnProgress {
    pub oldest_id: Option<Id>,
    pub oldest_ts: Option<i64>,
    pub sum: usize,
}

impl LearnProgress {
    pub fn new() -> (r: LearnProgress)
        ensures
            r.oldest_id is None,
            r.oldest_ts is None,
            r.sum == 0,
    {
        LearnProgress { oldest_id: None, oldest_ts: None, sum: 0 }
    }

    /// The message before which the next page is requested; it is then forgotten, so that a
    /// page with nothing older ends the walk.
    pub fn take_before(&mut self) -> (r: Option<Id>)
        ensures
            r == old(self).oldest_id,
            final(self).oldest_id is None,
            final(self).oldest_ts == old(self).oldest_ts,
            final(self).sum == old(self).sum,
    {
        let r = self.oldest_id;
        self.oldest_id = None;
        r
    }

    /// Counts a page of `n` messages, saturating.
    pub fn count(&mut self, n: usize)
        ensures
            final(self).sum == if old(self).sum + n <= usize::MAX {
                (old(self).sum + n) as usize
            } else {
                usize::MAX
            },
            final(self).oldest_id == old(self).oldest_id,
            final(self).oldest_ts == old(self).oldest_ts,
    {
        self.sum = self.sum.saturating_add(n);
    }

    /// Notes a message of the page: it becomes the oldest where it is older than all before.
    pub fn record(&mut self, id: Id, timestamp: i64)
        ensures
            final(self).sum == old(self).sum,
            (old(self).oldest_ts matches Some(t) && timestamp >= t) ==> *final(self) == *old(self),
            !(old(self).oldest_ts matches Some(t) && timestamp >= t) ==> final(self).oldest_id
                == Some(id) && final(self).oldest_ts == Some(timestamp),
    {
        let older = match self.oldest_ts {
            Some(t) => timestamp < t,
            None => true,
        };
        if older {
            self.oldest_id = Some(id);
            self.oldest_ts = Some(timestamp);
        }
    }

    /// Whether the walk is over: the last page had nothing older, or `max` messages were read.
    pub fn finished(&self, max: Option<usize>) -> (r: bool)
        ensures
            r == (self.oldest_id is None || (max matches Some(m) && self.sum >= m)),
    {
        match self.oldest_id {
            None => true,
            Some(_) => match max {
                Some(m) => self.sum >= m,
                None => false,
            },
        }
    }
}

/// A command that a chat message gives the bot.
#[derive(Debug)]
pub enum BotCommand {
    /// Say a sentence made up by the chain.
    Mimic,
    /// List the words that followed a word.
    Follows(String),
    /// List the words that start sentences.
    Starts,
    /// Save the chain.
    Save,
    /// Drop rare transitions (admins only).
    Clean,
    /// Learn from a channel's history, up to `max` messages or all of it.
    Learn { channel: Id, max: Option<usize> },
}

pub enum CommandView {
    Mimic,
    Follows(Seq<char>),
    Starts,
    Save,
    Clean,
    Learn { channel: u64, max: Option<usize> },
}

impl View for BotCommand {
    type V = CommandView;

    open spec fn view(&self) -> CommandView {
        match self {
            BotCommand::Mimic => CommandView::Mimic,
            BotCommand::Follows(w) => CommandView::Follows(w@),
            BotCommand::Starts => CommandView::Starts,
            BotCommand::Save => CommandView::Save,
            BotCommand::Clean => CommandView::Clean,
            BotCommand::Learn { channel, max } => CommandView::Learn { channel: channel.0, max: *max },
        }
    }
}

/// An argument that a command needs.
#[derive(Clone, Copy, Debug, PartialEq, Eq, Structural)]
pub enum Argument {
    Word,
    Channel,
    Max,
}

/// Why a command could not be read.
#[derive(Clone, Copy, Debug, PartialEq, Eq, Structural)]
pub enum CommandError {
    MissingArgument(Argument),
    /// The message count is neither `full` nor a number.
    InvalidNumber,
    /// The channel is not a channel mention or id.
    InvalidChannel,
}

/// The text after the command prefix `eg!`, where the message starts with it.
pub open spec fn after_prefix(content: Seq<char>) -> Option<Seq<char>> {
    if content.len() >= 3 && content[0] == 'e' && content[1] == 'g' && content[2] == '!' {
        Some(content.skip(3))
    } else {
        None
    }
}

/// A text without all its leading `<#`.
pub open spec fn trim_channel_start(s: Seq<char>) -> Seq<char>
    decreases s.len(),
{
    if s.len() >= 2 && s[0] == '<' && s[1] == '#' {
        trim_channel_start(s.skip(2))
    } else {
        s
    }
}

/// A text without all its trailing `>`.
pub open spec fn trim_channel_end(s: Seq<char>) -> Seq<char>
    decreases s.len(),
{
    if s.len() > 0 && s.last() == '>' {
        trim_channel_end(s.drop_last())
    } else {
        s
    }
}

/// The message count of a learn command.
pub open spec fn max_of(t: Seq<char>) -> Result<Option<usize>, CommandError> {
    if lower_of(t) == "full"@ {
        Ok(None)
    } else if is_u64_text(t) && decimal_value(unsigned_digits(t)) <= usize::MAX {
        Ok(Some(decimal_value(unsigned_digits(t)) as usize))
    } else {
        Err(CommandError::InvalidNumber)
    }
}

/// The channel of a learn command: a channel mention `<#id>` or an id.
pub open spec fn channel_of(t: Seq<char>) -> Result<u64, CommandError> {
    let id = trim_channel_end(trim_channel_start(t));
    if is_u64_text(id) {
        Ok(decimal_value(unsigned_digits(id)) as u64)
    } else {
        Err(CommandError::InvalidChannel)
    }
}

/// The command that a message gives: `Ok(None)` where it gives none (no prefix, no words, or a
/// name that is no command).
pub open spec fn command_of(content: Seq<char>) -> Result<Option<CommandView>, CommandError> {
    match after_prefix(content) {
        None => Ok(None),
        Some(rest) => {
            let ws = words_of(rest);
            if ws.len() == 0 {
                Ok(None)
            } else {
                let cmd = ws[0];
                let args = ws.skip(1);
                if cmd == "mimic"@ {
                    Ok(Some(CommandView::Mimic))
                } else if cmd == "follows"@ {
                    if args.len() >= 1 {
                        Ok(Some(CommandView::Follows(args[0])))
                    } else {
                        Err(CommandError::MissingArgument(Argument::Word))
                    }
                } else if cmd == "starts"@ {
                    Ok(Some(CommandView::Starts))
                } else if cmd == "save"@ {
                    Ok(Some(CommandView::Save))
                } else if cmd == "clean"@ {
                    Ok(Some(CommandView::Clean))
                } else if cmd == "learn"@ {
                    if args.len() < 1 {
                        Err(CommandError::MissingArgument(Argument::Channel))
                    } else if args.len() < 2 {
                        Err(CommandError::MissingArgument(Argument::Max))
                    } else {
                        match max_of(args[1]) {
                            Err(e) => Err(e),
                            Ok(max) => match channel_of(args[0]) {
                                Err(e) => Err(e),
                                Ok(channel) => Ok(Some(CommandView::Learn { channel, max })),
                            },
                        }
                    }
                } else {
                    Ok(None)
                }
            }
        },
    }
}

fn parse_max(t: &str) -> (r: Result<Option<usize>, CommandError>)
    ensures
        r == max_of(t@),
{
    let lower = lowercase(t);
    if str_equal(lower.as_str(), "full") {
        return Ok(None);
    }
    match parse_u64(t) {
        Some(n) => if n <= usize::MAX as u64 {
            Ok(Some(n as usize))
        } else {
            Err(CommandError::InvalidNumber)
        },
        None => Err(CommandError::InvalidNumber),
    }
}

fn parse_channel(t: &str) -> (r: Result<Id, CommandError>)
    ensures
        match r {
            Ok(id) => channel_of(t@) == Ok::<u64, CommandError>(id.0),
            Err(e) => channel_of(t@) == Err::<u64, CommandError>(e),
        },
{
    let n = t.unicode_len();
    let mut start: usize = 0;
    assert(t@.skip(0) =~= t@);
    while n - start >= 2 && t.get_char(start) == '<' && t.get_char(start + 1) == '#'
        invariant
            start <= n,
            n == t@.len(),
            trim_channel_start(t@) == trim_channel_start(t@.skip(start as int)),
        decreases n - start,
    {
        assert(t@.skip(start as int).skip(2) =~= t@.skip(start + 2));
        start = start + 2;
    }
    let mut end: usize = n;
    let ghost trimmed = t@.skip(start as int);
    assert(trimmed =~= t@.subrange(start as int, n as int));
    while end > start && t.get_char(end - 1) == '>'
        invariant
            start <= end <= n,
            n == t@.len(),
            trimmed == t@.skip(start as int),
            trim_channel_start(t@) == trimmed,
            trim_channel_end(trimmed) == trim_channel_end(t@.subrange(start as int, end as int)),
        decreases end,
    {
        assert(t@.subrange(start as int, end as int).drop_last() =~= t@.subrange(
            start as int,
            end - 1,
        ));
        end = end - 1;
    }
    let id = t.substring_char(start, end);
    match parse_u64(id) {
        Some(v) => Ok(Id(v)),
        None => Err(CommandError::InvalidChannel),
    }
}

/// Reads the command that a chat message gives the bot.
pub fn parse_command(content: &str) -> (r: Result<Option<BotCommand>, CommandError>)
    ensures
        match r {
            Ok(Some(c)) => command_of(content@) == Ok::<Option<CommandView>, CommandError>(
                Some(c@),
            ),
            Ok(None) => command_of(content@) == Ok::<Option<CommandView>, CommandError>(None),
            Err(e) => command_of(content@) == Err::<Option<CommandView>, CommandError>(e),
        },
{
    let n = content.unicode_len();
    if !(n >= 3 && content.get_char(0) == 'e' && content.get_char(1) == 'g' && content.get_char(2)
        == '!') {
        return Ok(None);
    }
    let rest = content.substring_char(3, n);
    assert(rest@ =~= content@.skip(3));
    let ws = split_words(rest);
    if ws.len() == 0 {
        return Ok(None);
    }
    let ghost words = words_of(rest@);
    assert(texts_of(ws@)[0] == ws@[0]@);
    let cmd = ws[0].as_str();
    if str_equal(cmd, "mimic") {
        Ok(Some(BotCommand::Mimic))
    } else if str_equal(cmd, "follows") {
        if ws.len() >= 2 {
            assert(words.skip(1)[0] == ws@[1]@);
            Ok(Some(BotCommand::Follows(ws[1].clone())))
        } else {
            Err(CommandError::MissingArgument(Argument::Word))
        }
    } else if str_equal(cmd, "starts") {
        Ok(Some(BotCommand::Starts))
    } else if str_equal(cmd, "save") {
        Ok(Some(BotCommand::Save))
    } else if str_equal(cmd, "clean") {
        Ok(Some(BotCommand::Clean))
    } else if str_equal(cmd, "learn") {
        if ws.len() < 2 {
            Err(CommandError::MissingArgument(Argument::Channel))
        } else if ws.len() < 3 {
            Err(CommandError::MissingArgument(Argument::Max))
        } else {
            assert(words.skip(1)[0] == ws@[1]@);
            assert(words.skip(1)[1] == ws@[2]@);
            let max = match parse_max(ws[2].as_str()) {
                Ok(m) => m,
                Err(e) => return Err(e),
            };
            match parse_channel(ws[1].as_str()) {
                Ok(channel) => Ok(Some(BotCommand::Learn { channel, max })),
                Err(e) => Err(e),
            }
        }
    } else {
        Ok(None)
    }
}

} // verus!
