use vstd::prelude::*;

verus! {

#[verifier::external_type_specification]
#[verifier::external_body]
pub struct ExMailbox(lettre::message::Mailbox);

#[verifier::external_type_specification]
#[verifier::external_body]
pub struct ExMessage(lettre::Message);

#[verifier::external_type_specification]
#[verifier::external_body]
pub struct ExMailBuildError(lettre::error::Error);

/// The mailbox that `lettre` reads from a text such as `Name <user@host>` or
/// `user@host`; `None` when the text is not a mailbox.
pub uninterp spec fn mailbox_of(s: Seq<char>) -> Option<lettre::message::Mailbox>;

/// Whether a text reads as a mailbox.
pub open spec fn is_mailbox(s: Seq<char>) -> bool {
    mailbox_of(s) is Some
}

/// Whether every recipient reads as a mailbox.
pub open spec fn all_mailboxes(to: Seq<String>) -> bool {
    forall|i: int| 0 <= i < to.len() ==> is_mailbox(#[trigger] to[i]@)
}

/// Calls `Mailbox::from_str` (through `str::parse`): the mailbox a text
/// reads as, a function of the text alone.
#[verifier::external_body]
fn parse_mailbox(s: &str) -> (r: Option<lettre::message::Mailbox>)
    ensures
        r == mailbox_of(s@),
{
    match s.parse::<lettre::message::Mailbox>() {
        Ok(mb) => Some(mb),
        Err(_) => None,
    }
}

/// What a mail is made of: the sender, the recipients in order, the subject
/// and the HTML content.
pub struct MailParts {
    pub from: lettre::message::Mailbox,
    pub to: Vec<lettre::message::Mailbox>,
    pub subject: String,
    pub content: String,
}

/// The text that `lettre` writes for a mailbox (its `Display`): the address,
/// after the name and in angle brackets when the mailbox has a name, the
/// name quoted when it holds other than atom characters.
pub uninterp spec fn mailbox_text(mb: lettre::message::Mailbox) -> Seq<char>;

/// The text of a message's header called `name`, as the builder stored it;
/// `None` when the message has no such header.
pub uninterp spec fn mail_header(msg: lettre::Message, name: Seq<char>) -> Option<Seq<char>>;

/// The text of a message's HTML part: `Some` when the message's body is a
/// `multipart/alternative` holding exactly one part, of type `text/html`,
/// and then that part's body with its transfer encoding undone.
pub uninterp spec fn mail_html(msg: lettre::Message) -> Option<Seq<char>>;

/// A mailbox whose text `lettre` reads back as the same mailbox when it
/// parses its own headers: the text holds no quote and no comma.
pub open spec fn plain_mailbox(mb: lettre::message::Mailbox) -> bool {
    !mailbox_text(mb).contains('"') && !mailbox_text(mb).contains(',')
}

/// The text of a `To` header holding `to`: the mailboxes' texts joined by
/// `", "`.
pub open spec fn joined_mailboxes(to: Seq<lettre::message::Mailbox>) -> Seq<char>
    decreases to.len(),
{
    if to.len() <= 1 {
        if to.len() == 0 {
            Seq::empty()
        } else {
            mailbox_text(to[0])
        }
    } else {
        joined_mailboxes(to.drop_last()) + seq![',', ' '] + mailbox_text(to.last())
    }
}

/// A text with CRLF line endings, as `lettre` writes a text body: a `\r` is
/// put before each `\n` that does not already follow one.
pub open spec fn crlf_line_endings(s: Seq<char>) -> Seq<char>
    decreases s.len(),
{
    if s.len() == 0 {
        s
    } else if s.last() == '\n' && !(s.len() >= 2 && s[s.len() - 2] == '\r') {
        crlf_line_endings(s.drop_last()) + seq!['\r', '\n']
    } else {
        crlf_line_endings(s.drop_last()).push(s.last())
    }
}

/// Calls `lettre`'s message builder on the parts: `Message::builder()`,
/// `from` with the sender, `to` with each recipient in order, `subject`, and
/// `multipart` with a `MultiPart::alternative()` holding one `SinglePart`
/// of content type `text/html` whose body is the content.
/// - The `From` header holds the sender's text and the `Subject` header the
///   subject; the HTML part holds the content with CRLF line endings.
/// - Each `to` after the first reads the `To` header back from its text
///   and adds the mailbox; for plain mailboxes that gives the recipients'
///   texts in order. For others the source does not show it, so it is not
///   stated.
/// - The build fails without a recipient; with plain mailboxes and at
///   least one recipient it succeeds.
/// The builder also adds a `Date` header from the clock (which panics for a
/// clock before the Unix epoch or from the year 10000 on; callers check the
/// clock first) and the multipart a random boundary; neither is stated.
#[verifier::external_body]
fn compose_mail(parts: MailParts) -> (r: Result<lettre::Message, lettre::error::Error>)
    ensures
        parts.to@.len() == 0 ==> r is Err,
        parts.to@.len() > 0 && plain_mailbox(parts.from) && (forall|i: int|
            0 <= i < parts.to@.len() ==> plain_mailbox(#[trigger] parts.to@[i])) ==> r is Ok,
        r is Ok ==> {
            &&& mail_header(r->Ok_0, "From"@) == Some(mailbox_text(parts.from))
            &&& mail_header(r->Ok_0, "Subject"@) == Some(parts.subject@)
            &&& mail_html(r->Ok_0) == Some(crlf_line_endings(parts.content@))
            &&& (forall|i: int| 0 <= i < parts.to@.len() ==> plain_mailbox(#[trigger] parts.to@[i]))
                ==> mail_header(r->Ok_0, "To"@) == Some(joined_mailboxes(parts.to@))
        },
{
    let mut builder = lettre::Message::builder().from(parts.from);
    for mailbox in parts.to {
        builder = builder.to(mailbox);
    }
    let html = lettre::message::SinglePart::builder()
        .header(lettre::message::header::ContentType::TEXT_HTML)
        .body(parts.content);
    builder.subject(parts.subject).multipart(lettre::message::MultiPart::alternative().singlepart(html))
}

/// Why a mail could not be built.
#[derive(Debug, Clone, Copy, PartialEq, Eq, Structural)]
pub enum MailError {
    /// The sender does not read as a mailbox.
    InvalidFrom,
    /// A recipient does not read as a mailbox.
    InvalidTo,
    /// The clock reads outside the years that a mail's `Date` header can
    /// carry (1970 to 9999).
    Clock,
    /// The message builder refused the message.
    Build,
}

/// The last second (since the Unix epoch) that a mail's `Date` header can
/// carry: the end of the year 9999.
pub const LAST_MAIL_SECOND: u64 = 253402300799;

/// How many times a mail is tried before it is given up.
pub const MAX_RETRY: u8 = 5;

/// How long to wait after a failed try, in seconds.
pub const RETRY_TICK: u64 = 60;

/// A mail to send: its recipients, HTML body and subject.
pub struct MailRequest {
    pub to: Vec<String>,
    pub content: String,
    pub subject: String,
}

impl MailRequest {
    pub fn new(to: Vec<String>, content: String, subject: String) -> (r: Self)
        ensures
            r.to == to,
            r.content == content,
            r.subject == subject,
    {
        MailRequest { to, content, subject }
    }
}

/// Reads the sender and the recipients of a mail as mailboxes and gathers
/// the parts of the mail. A sender or a recipient that does not read as a
/// mailbox is refused, the sender first.
pub fn mail_parts(from: &str, m: &MailRequest) -> (r: Result<MailParts, MailError>)
    ensures
        !is_mailbox(from@) ==> r == Err::<MailParts, MailError>(MailError::InvalidFrom),
        is_mailbox(from@) && !all_mailboxes(m.to@) ==> r == Err::<MailParts, MailError>(
            MailError::InvalidTo,
        ),
        is_mailbox(from@) && all_mailboxes(m.to@) ==> {
            &&& r is Ok
            &&& Some(r->Ok_0.from) == mailbox_of(from@)
            &&& r->Ok_0.to@.len() == m.to@.len()
            &&& forall|i: int|
                0 <= i < m.to@.len() ==> Some(#[trigger] r->Ok_0.to@[i]) == mailbox_of(m.to@[i]@)
            &&& r->Ok_0.subject@ == m.subject@
            &&& r->Ok_0.content@ == m.content@
        },
{
    let sender = match parse_mailbox(from) {
        Some(mb) => mb,
        None => {
            return Err(MailError::InvalidFrom);
        },
    };
    let mut to: Vec<lettre::message::Mailbox> = Vec::new();
    let mut i: usize = 0;
    while i < m.to.len()
        invariant
            0 <= i <= m.to@.len(),
            is_mailbox(from@),
            to@.len() == i,
            forall|j: int| 0 <= j < i ==> Some(#[trigger] to@[j]) == mailbox_of(m.to@[j]@),
        decreases m.to@.len() - i,
    {
        match parse_mailbox(m.to[i].as_str()) {
            Some(mb) => {
                to.push(mb);
            },
            None => {
                return Err(MailError::InvalidTo);
            },
        }
        i = i + 1;
    }
    proof {
        assert(all_mailboxes(m.to@)) by {
            assert forall|j: int| 0 <= j < m.to@.len() implies is_mailbox(#[trigger] m.to@[j]@) by {
                assert(Some(to@[j]) == mailbox_of(m.to@[j]@));
            }
        }
    }
    Ok(MailParts { from: sender, to, subject: m.subject.clone(), content: m.content.clone() })
}

/// The mailboxes that the recipients read as.
pub open spec fn recipients_of(to: Seq<String>) -> Seq<lettre::message::Mailbox> {
    Seq::new(to.len(), |i: int| mailbox_of(to[i]@)->Some_0)
}

/// Builds the mail to send from `from`: the parts that `mail_parts`
/// gathers, with the content as the one `text/html` part of a
/// `multipart/alternative` body. Unreadable addresses are refused as
/// `mail_parts` refuses them; then a clock outside the years a `Date`
/// header can carry is refused; then the builder's answer is passed on. A
/// built mail carries the sender, the subject and the content (with CRLF
/// line endings), and, when the recipients are plain mailboxes, the
/// recipients in order.
pub fn build_mail(from: &str, m: &MailRequest) -> (r: Result<lettre::Message, MailError>)
    ensures
        !is_mailbox(from@) ==> r == Err::<lettre::Message, MailError>(MailError::InvalidFrom),
        is_mailbox(from@) && !all_mailboxes(m.to@) ==> r == Err::<lettre::Message, MailError>(
            MailError::InvalidTo,
        ),
        is_mailbox(from@) && all_mailboxes(m.to@) ==> r is Ok || r == Err::<
            lettre::Message,
            MailError,
        >(MailError::Clock) || r == Err::<lettre::Message, MailError>(MailError::Build),
        m.to@.len() == 0 ==> r is Err,
        is_mailbox(from@) && all_mailboxes(m.to@) && m.to@.len() > 0 && plain_mailbox(
            mailbox_of(from@)->Some_0,
        ) && (forall|i: int|
            0 <= i < m.to@.len() ==> plain_mailbox(#[trigger] recipients_of(m.to@)[i])) ==> r is Ok
            || r == Err::<lettre::Message, MailError>(MailError::Clock),
        r is Ok ==> {
            &&& mail_header(r->Ok_0, "From"@) == Some(mailbox_text(mailbox_of(from@)->Some_0))
            &&& mail_header(r->Ok_0, "Subject"@) == Some(m.subject@)
            &&& mail_html(r->Ok_0) == Some(crlf_line_endings(m.content@))
            &&& (forall|i: int|
                0 <= i < m.to@.len() ==> plain_mailbox(#[trigger] recipients_of(m.to@)[i]))
                ==> mail_header(r->Ok_0, "To"@) == Some(joined_mailboxes(recipients_of(m.to@)))
        },
{
    let parts = match mail_parts(from, m) {
        Ok(parts) => parts,
        Err(e) => {
            return Err(e);
        },
    };
    proof {
        assert(parts.to@ =~= recipients_of(m.to@)) by {
            assert forall|i: int| 0 <= i < m.to@.len() implies parts.to@[i] == recipients_of(m.to@)[i] by {
                assert(Some(parts.to@[i]) == mailbox_of(m.to@[i]@));
            }
        }
    }
    match crate::jwt::unix_now() {
        Some(now) => {
            if now > LAST_MAIL_SECOND {
                return Err(MailError::Clock);
            }
        },
        None => {
            return Err(MailError::Clock);
        },
    }
    match compose_mail(parts) {
        Ok(message) => Ok(message),
        Err(_) => Err(MailError::Build),
    }
}

/// What the sender does after a try.
#[derive(Debug, Clone, Copy, PartialEq, Eq, Structural)]
pub enum MailStep {
    /// The mail went out; stop.
    Sent,
    /// Wait this many seconds, then try again.
    RetryAfter(u64),
    /// Wait this many seconds, then give the mail up.
    GiveUpAfter(u64),
}

/// Decides the step after try number `attempt` (counting from one) that
/// succeeded or failed.
pub fn after_attempt(attempt: u8, sent: bool) -> (r: MailStep)
    requires
        1 <= attempt <= MAX_RETRY,
    ensures
        sent ==> r == MailStep::Sent,
        !sent && attempt < MAX_RETRY ==> r == MailStep::RetryAfter(RETRY_TICK),
        !sent && attempt == MAX_RETRY ==> r == MailStep::GiveUpAfter(RETRY_TICK),
{
    if sent {
        MailStep::Sent
    } else if attempt < MAX_RETRY {
        MailStep::RetryAfter(RETRY_TICK)
    } else {
        MailStep::GiveUpAfter(RETRY_TICK)
    }
}

} // verus!
