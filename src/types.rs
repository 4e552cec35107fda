use crate::strings::StrCow;
use vstd::prelude::*;
use vstd::string::StrSliceExecFns;

verus! {

/// An owned bot token.
#[derive(Clone, Debug)]
pub struct TokenBuf(pub String);

/// A borrowed bot token.
#[derive(Clone, Copy, Debug)]
pub struct Token<'a>(pub &'a str);

impl From<String> for TokenBuf {
    fn from(s: String) -> (r: TokenBuf)
        ensures
            r.0@ == s@,
    {
        TokenBuf(s)
    }
}

impl vstd::std_specs::convert::FromSpecImpl<String> for TokenBuf {
    open spec fn obeys_from_spec() -> bool {
        true
    }

    open spec fn from_spec(s: String) -> TokenBuf {
        TokenBuf(s)
    }
}

impl TokenBuf {
    pub fn as_token(&self) -> (r: Token<'_>)
        ensures
            r.0@ == self.0@,
    {
        Token(self.0.as_str())
    }
}

impl<'a> Token<'a> {
    pub fn as_str(&self) -> (r: &'a str)
        ensures
            r@ == self.0@,
    {
        self.0
    }
}

/// A snowflake identifier: an unsigned 64-bit number written in decimal on the wire.
#[derive(Clone, Copy, Debug, PartialEq, Eq, Structural)]
pub struct Id(pub u64);

/// The text is not an unsigned decimal number that fits in 64 bits.
#[derive(Clone, Copy, Debug, PartialEq, Eq, Structural)]
pub struct ParseIdError;

pub open spec fn is_digit(c: char) -> bool {
    '0' <= c && c <= '9'
}

pub open spec fn digit_value(c: char) -> nat {
    (c as int - '0' as int) as nat
}

pub open spec fn digit_char(d: nat) -> char {
    ('0' as int + d) as char
}

pub open spec fn all_digits(s: Seq<char>) -> bool {
    forall|i: int| 0 <= i < s.len() ==> is_digit(#[trigger] s[i])
}

/// The number that a string of decimal digits denotes.
pub open spec fn decimal_value(s: Seq<char>) -> nat
    decreases s.len(),
{
    if s.len() == 0 {
        0
    } else {
        decimal_value(s.drop_last()) * 10 + digit_value(s.last())
    }
}

/// The digits of an unsigned number, after an optional leading `+`.
pub open spec fn unsigned_digits(s: Seq<char>) -> Seq<char> {
    if s.len() > 0 && s[0] == '+' {
        s.drop_first()
    } else {
        s
    }
}

/// The text is an unsigned decimal number (as `u64`'s `FromStr` reads one) that fits in 64 bits.
pub open spec fn is_u64_text(s: Seq<char>) -> bool {
    let d = unsigned_digits(s);
    &&& d.len() > 0
    &&& all_digits(d)
    &&& decimal_value(d) <= u64::MAX
}

/// The shortest decimal text of a number.
pub open spec fn decimal_text(n: nat) -> Seq<char>
    decreases n,
{
    if n < 10 {
        seq![digit_char(n)]
    } else {
        decimal_text(n / 10).push(digit_char(n % 10))
    }
}

proof fn lemma_decimal_value_prefix(s: Seq<char>, i: int, j: int)
    requires
        0 <= i <= j <= s.len(),
    ensures
        decimal_value(s.subrange(0, i)) <= decimal_value(s.subrange(0, j)),
    decreases j - i,
{
    if i < j {
        lemma_decimal_value_prefix(s, i, j - 1);
        assert(s.subrange(0, j).drop_last() =~= s.subrange(0, j - 1));
    }
}

proof fn lemma_decimal_text_digits(n: nat)
    ensures
        all_digits(decimal_text(n)),
        decimal_value(decimal_text(n)) == n,
        decimal_text(n).len() > 0,
    decreases n,
{
    if n >= 10 {
        lemma_decimal_text_digits(n / 10);
        let t = decimal_text(n);
        assert(t.drop_last() =~= decimal_text(n / 10));
        assert(digit_value(digit_char(n % 10)) == n % 10);
        assert((n / 10) * 10 + n % 10 == n) by (nonlinear_arith);
        assert(t.last() == digit_char(n % 10));
        assert(decimal_value(t) == decimal_value(t.drop_last()) * 10 + digit_value(t.last()));
    } else {
        assert(decimal_text(n).drop_last() =~= Seq::<char>::empty());
        assert(digit_value(digit_char(n)) == n);
        assert(decimal_value(Seq::<char>::empty()) == 0);
        let t = decimal_text(n);
        assert(decimal_value(t) == decimal_value(t.drop_last()) * 10 + digit_value(t.last()));
    }
}

/// Relies on `String::push`: appends one character.
#[verifier::external_body]
pub(crate) fn push_char(s: &mut String, c: char)
    ensures
        final(s)@ == old(s)@.push(c),
{
    s.push(c)
}

/// Relies on `String::push_str`: appends a string.
#[verifier::external_body]
pub(crate) fn push_str(s: &mut String, t: &str)
    ensures
        final(s)@ == old(s)@ + t@,
{
    s.push_str(t)
}

/// Appends the decimal text of `n`.
pub fn write_decimal(out: &mut String, n: u64)
    ensures
        final(out)@ == old(out)@ + decimal_text(n as nat),
    decreases n,
{
    if n >= 10 {
        write_decimal(out, n / 10);
    }
    let d: u8 = (n % 10) as u8;
    let c = (48u8 + d) as char;
    push_char(out, c);
}

/// Reads an unsigned decimal number, as `u64`'s `FromStr` does.
pub fn parse_u64(s: &str) -> (r: Option<u64>)
    ensures
        r is Some <==> is_u64_text(s@),
        r matches Some(n) ==> n == decimal_value(unsigned_digits(s@)),
{
    let n = s.unicode_len();
    let mut i: usize = 0;
    if n > 0 && s.get_char(0) == '+' {
        i = 1;
    }
    let start = i;
    let ghost d = unsigned_digits(s@);
    assert(d =~= s@.subrange(start as int, n as int));
    if i == n {
        return None;
    }
    let mut acc: u64 = 0;
    assert(s@.subrange(start as int, start as int) =~= Seq::<char>::empty());
    while i < n
        invariant
            start <= i <= n,
            n == s@.len(),
            d == unsigned_digits(s@),
            d =~= s@.subrange(start as int, n as int),
            all_digits(s@.subrange(start as int, i as int)),
            acc == decimal_value(s@.subrange(start as int, i as int)),
        decreases n - i,
    {
        let c = s.get_char(i);
        assert(d[i - start] == c);
        if !('0' <= c && c <= '9') {
            assert(!is_digit(d[i - start]));
            return None;
        }
        let dv: u64 = ((c as u32) - 48) as u64;
        let ghost next = s@.subrange(start as int, i + 1);
        assert(next.drop_last() =~= s@.subrange(start as int, i as int));
        assert(d.subrange(0, i + 1 - start) =~= next);
        assert(next.last() == c);
        assert(decimal_value(next) == acc * 10 + dv);
        if acc > (u64::MAX - dv) / 10 {
            assert(acc * 10 + dv > u64::MAX) by (nonlinear_arith)
                requires
                    acc > (u64::MAX - dv) / 10,
                    dv <= 9,
            ;
            proof {
                lemma_decimal_value_prefix(d, i + 1 - start, d.len() as int);
                assert(d.subrange(0, d.len() as int) =~= d);
            }
            return None;
        }
        assert(acc * 10 + dv <= u64::MAX) by (nonlinear_arith)
            requires
                acc <= (u64::MAX - dv) / 10,
                dv <= 9,
        ;
        acc = acc * 10 + dv;
        i = i + 1;
    }
    Some(acc)
}


impl Id {
    /// Reads an identifier from its decimal text.
    pub fn parse(s: &str) -> (r: Result<Id, ParseIdError>)
        ensures
            r is Ok <==> is_u64_text(s@),
            r matches Ok(id) ==> id.0 == decimal_value(unsigned_digits(s@)),
    {
        match parse_u64(s) {
            Some(n) => Ok(Id(n)),
            None => Err(ParseIdError),
        }
    }

    /// The decimal text of the identifier.
    pub fn to_decimal(&self) -> (r: String)
        ensures
            r@ == decimal_text(self.0 as nat),
    {
        let mut out = String::new();
        write_decimal(&mut out, self.0);
        out
    }
}

/// The number of a dispatched event.
#[derive(Clone, Copy, Debug, PartialEq, Eq, Structural)]
pub struct Sequence(pub usize);

/// A presence status.
#[derive(Clone, Copy, Debug, PartialEq, Eq, Structural)]
pub enum Status {
    Online,
    Dnd,
    Idle,
    Invisible,
    Offline,
}

impl Status {
    /// The status as it is written on the wire.
    pub fn name(&self) -> (r: &'static str)
        ensures
            match self {
                Status::Online => r@ == "online"@,
                Status::Dnd => r@ == "dnd"@,
                Status::Idle => r@ == "idle"@,
                Status::Invisible => r@ == "invisible"@,
                Status::Offline => r@ == "offline"@,
            },
    {
        match self {
            Status::Online => "online",
            Status::Dnd => "dnd",
            Status::Idle => "idle",
            Status::Invisible => "invisible",
            Status::Offline => "offline",
        }
    }
}

/// A class of events that a session subscribes to.
#[derive(Clone, Copy, Debug, PartialEq, Eq, Structural)]
pub enum Intent {
    Guilds,
    GuildMembers,
    GuildBans,
    GuildEmojis,
    GuildIntegrations,
    GuildWebhooks,
    GuildInvites,
    GuildVoiceStates,
    GuildPresences,
    GuildMessages,
    GuildMessageReactions,
    GuildMessageTyping,
    DirectMessages,
    DirectMessageReactions,
    DirectMessageTyping,
}

/// The flag of an intent.
pub open spec fn intent_bit(i: Intent) -> u16 {
    match i {
        Intent::Guilds => 0x1,
        Intent::GuildMembers => 0x2,
        Intent::GuildBans => 0x4,
        Intent::GuildEmojis => 0x8,
        Intent::GuildIntegrations => 0x10,
        Intent::GuildWebhooks => 0x20,
        Intent::GuildInvites => 0x40,
        Intent::GuildVoiceStates => 0x80,
        Intent::GuildPresences => 0x100,
        Intent::GuildMessages => 0x200,
        Intent::GuildMessageReactions => 0x400,
        Intent::GuildMessageTyping => 0x800,
        Intent::DirectMessages => 0x1000,
        Intent::DirectMessageReactions => 0x2000,
        Intent::DirectMessageTyping => 0x4000,
    }
}

/// The flags of a list of intents, combined.
pub open spec fn intents_bits(s: Seq<Intent>) -> u16
    decreases s.len(),
{
    if s.len() == 0 {
        0
    } else {
        intents_bits(s.drop_last()) | intent_bit(s.last())
    }
}

/// A set of intents, as the bit flags that the identify command carries.
#[derive(Clone, Copy, Debug, PartialEq, Eq, Structural)]
pub struct Intents(pub u16);

impl Intent {
    pub fn bit(self) -> (r: u16)
        ensures
            r == intent_bit(self),
    {
        match self {
            Intent::Guilds => 0x1,
            Intent::GuildMembers => 0x2,
            Intent::GuildBans => 0x4,
            Intent::GuildEmojis => 0x8,
            Intent::GuildIntegrations => 0x10,
            Intent::GuildWebhooks => 0x20,
            Intent::GuildInvites => 0x40,
            Intent::GuildVoiceStates => 0x80,
            Intent::GuildPresences => 0x100,
            Intent::GuildMessages => 0x200,
            Intent::GuildMessageReactions => 0x400,
            Intent::GuildMessageTyping => 0x800,
            Intent::DirectMessages => 0x1000,
            Intent::DirectMessageReactions => 0x2000,
            Intent::DirectMessageTyping => 0x4000,
        }
    }

    pub fn and(self, other: Intent) -> (r: Intents)
        ensures
            r.0 == intent_bit(self) | intent_bit(other),
    {
        Intents(self.bit() | other.bit())
    }
}

impl Intents {
    pub fn and(self, other: Intent) -> (r: Intents)
        ensures
            r.0 == self.0 | intent_bit(other),
    {
        Intents(self.0 | other.bit())
    }

    /// The set that holds exactly the listed intents.
    pub fn from_list(list: &[Intent]) -> (r: Intents)
        ensures
            r.0 == intents_bits(list@),
    {
        let mut acc = Intents(0);
        let mut i: usize = 0;
        while i < list.len()
            invariant
                i <= list@.len(),
                acc.0 == intents_bits(list@.subrange(0, i as int)),
            decreases list@.len() - i,
        {
            assert(list@.subrange(0, i + 1).drop_last() =~= list@.subrange(0, i as int));
            acc = acc.and(list[i]);
            i = i + 1;
        }
        assert(list@.subrange(0, list@.len() as int) =~= list@);
        acc
    }
}

impl From<Intent> for Intents {
    fn from(intent: Intent) -> (r: Intents)
        ensures
            r.0 == intent_bit(intent),
    {
        Intents(intent.bit())
    }
}

impl vstd::std_specs::convert::FromSpecImpl<Intent> for Intents {
    open spec fn obeys_from_spec() -> bool {
        true
    }

    open spec fn from_spec(intent: Intent) -> Intents {
        Intents(intent_bit(intent))
    }
}

/// A user as events carry it; the strings borrow from the decoded document.
#[derive(Clone, Copy, Debug)]
pub struct User<'a> {
    pub id: Id,
    pub username: &'a str,
    pub discriminator: &'a str,
}

/// A guild member as events carry it.
#[derive(Debug)]
pub struct Member<'a> {
    pub user: Option<User<'a>>,
    pub nick: Option<StrCow<'a>>,
}

/// A chat message.
#[derive(Debug)]
pub struct Message<'a> {
    pub content: StrCow<'a>,
    pub id: Id,
    pub channel_id: Id,
    /// Milliseconds since the Unix epoch.
    pub timestamp: i64,
    pub author: User<'a>,
    pub mentions: Vec<User<'a>>,
}

/// What a `User` holds.
pub struct UserView {
    pub id: u64,
    pub username: Seq<char>,
    pub discriminator: Seq<char>,
}

/// What a `Member` holds.
pub struct MemberView {
    pub user: Option<UserView>,
    pub nick: Option<Seq<char>>,
}

/// What a `Message` holds.
pub struct MessageView {
    pub content: Seq<char>,
    pub id: u64,
    pub channel_id: u64,
    pub timestamp: i64,
    pub author: UserView,
    pub mentions: Seq<UserView>,
}

impl<'a> View for User<'a> {
    type V = UserView;

    open spec fn view(&self) -> UserView {
        UserView { id: self.id.0, username: self.username@, discriminator: self.discriminator@ }
    }
}

impl<'a> View for Member<'a> {
    type V = MemberView;

    open spec fn view(&self) -> MemberView {
        MemberView {
            user: match self.user {
                Some(u) => Some(u@),
                None => None,
            },
            nick: match self.nick {
                Some(n) => Some(n@),
                None => None,
            },
        }
    }
}

/// The views of a list of users.
pub open spec fn users_view<'a>(users: Seq<User<'a>>) -> Seq<UserView> {
    users.map_values(|u: User<'a>| u@)
}

impl<'a> View for Message<'a> {
    type V = MessageView;

    open spec fn view(&self) -> MessageView {
        MessageView {
            content: self.content@,
            id: self.id.0,
            channel_id: self.channel_id.0,
            timestamp: self.timestamp,
            author: self.author@,
            mentions: users_view(self.mentions@),
        }
    }
}

/// The instant that an RFC 3339 timestamp denotes, in milliseconds since the Unix epoch, or
/// `None` where the text is no such timestamp.
pub uninterp spec fn timestamp_millis_of(text: Seq<char>) -> Option<i64>;

/// Relies on chrono's `FromStr` for `DateTime<Utc>` and on `DateTime::timestamp_millis`: the
/// result depends on the text alone.
#[verifier::external_body]
pub(crate) fn parse_timestamp_millis(text: &str) -> (r: Option<i64>)
    ensures
        r == timestamp_millis_of(text@),
{
    text.parse::<chrono::DateTime<chrono::Utc>>().ok().map(|dt| dt.timestamp_millis())
}

} // verus!
