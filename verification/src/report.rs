//! Assembly of the report mail.
//!
//! The body lists the unit names first, one per line, then each unit's
//! diagnostic text behind a blank-line spacer, in the same order; line breaks
//! are carriage-return line-feed pairs as mail conventions ask. The sender
//! line carries the host's name, the recipient line the administrator's
//! address.

use vstd::prelude::*;

use crate::units::FailedUnits;
use vstd::string::StringExecFns;

verus! {

/// One mail line break.
pub open spec fn crlf() -> Seq<char> {
    "\r\n"@
}

/// The spacer between two diagnostic texts.
pub open spec fn spacer() -> Seq<char> {
    "\r\n\r\n\r\n"@
}

/// The items each behind one separator, in order.
pub open spec fn section(sep: Seq<char>, items: Seq<Seq<char>>) -> Seq<char>
    decreases items.len(),
{
    if items.len() == 0 {
        Seq::empty()
    } else {
        section(sep, items.drop_last()) + sep + items.last()
    }
}

/// The names part of the body: every unit name on a line of its own.
pub open spec fn names_section(names: Seq<Seq<char>>) -> Seq<char> {
    section(crlf(), names)
}

/// The details part of the body: every diagnostic text behind a spacer.
pub open spec fn details_section(details: Seq<Seq<char>>) -> Seq<char> {
    section(spacer(), details)
}

/// The whole report body: a header and the names, then a header and the
/// details, positionally matched to the names.
pub open spec fn body_of(names: Seq<Seq<char>>, details: Seq<Seq<char>>) -> Seq<char> {
    "Failed units:"@ + names_section(names) + "\r\n\r\n"@
        + "Systemctl status output of failed units\r\n"@ + details_section(details)
}

/// The sender line, with the host's name in the display part.
pub open spec fn from_line(host: Seq<char>) -> Seq<char> {
    "systemd "@ + host + " <mail@weriomat.com>"@
}

/// The recipient line, with the administrator's address.
pub open spec fn to_line(email: Seq<char>) -> Seq<char> {
    "admin <"@ + email + ">"@
}

/// One more item extends a section by the separator and that item.
pub proof fn lemma_section_step(sep: Seq<char>, items: Seq<Seq<char>>, i: int)
    requires
        0 <= i < items.len(),
    ensures
        section(sep, items.take(i + 1)) == section(sep, items.take(i)) + sep + items[i],
{
    assert(items.take(i + 1).drop_last() =~= items.take(i));
    assert(items.take(i + 1).last() == items[i]);
}

/// A section of the first `k` items is a prefix of the whole section.
pub proof fn lemma_section_prefix(sep: Seq<char>, items: Seq<Seq<char>>, k: int)
    requires
        0 <= k <= items.len(),
    ensures
        section(sep, items.take(k)).len() <= section(sep, items).len(),
        section(sep, items).subrange(0, section(sep, items.take(k)).len() as int) == section(
            sep,
            items.take(k),
        ),
    decreases items.len() - k,
{
    if k == items.len() {
        assert(items.take(k) =~= items);
        assert(section(sep, items).subrange(0, section(sep, items).len() as int) =~= section(
            sep,
            items,
        ));
    } else {
        lemma_section_prefix(sep, items, k + 1);
        lemma_section_step(sep, items, k);
        assert(section(sep, items).subrange(0, section(sep, items.take(k)).len() as int)
            =~= section(sep, items.take(k)));
    }
}

/// Where item `i` starts inside its section.
pub open spec fn section_pos(sep: Seq<char>, items: Seq<Seq<char>>, i: int) -> int {
    section(sep, items.take(i)).len() + sep.len() as int
}

/// Each item of a section sits at its position, the items in order and
/// pairwise disjoint.
pub proof fn lemma_section_positions(sep: Seq<char>, items: Seq<Seq<char>>)
    ensures
        forall|i: int|
            0 <= i < items.len() ==> #[trigger] section_pos(sep, items, i) + items[i].len()
                <= section(sep, items).len(),
        forall|i: int|
            0 <= i < items.len() ==> section(sep, items).subrange(
                #[trigger] section_pos(sep, items, i),
                section_pos(sep, items, i) + items[i].len(),
            ) == items[i],
        forall|i: int, j: int|
            0 <= i < j < items.len() ==> #[trigger] section_pos(sep, items, i) + items[i].len()
                <= #[trigger] section_pos(sep, items, j),
{
    assert forall|i: int| 0 <= i < items.len() implies {
        &&& section_pos(sep, items, i) + items[i].len() <= section(sep, items).len()
        &&& section(sep, items).subrange(
            section_pos(sep, items, i),
            section_pos(sep, items, i) + items[i].len(),
        ) == items[i]
    } by {
        lemma_section_prefix(sep, items, i + 1);
        lemma_section_step(sep, items, i);
        let p = section(sep, items.take(i + 1));
        let pos = section_pos(sep, items, i);
        assert(p.len() == pos + items[i].len());
        assert(p.subrange(pos, pos + items[i].len() as int) =~= items[i]);
        assert(section(sep, items).subrange(0, p.len() as int) == p);
        assert(section(sep, items).subrange(pos, pos + items[i].len() as int) =~= p.subrange(
            pos,
            pos + items[i].len() as int,
        ));
    }
    assert forall|i: int, j: int|
        0 <= i < j < items.len() implies section_pos(sep, items, i) + items[i].len()
        <= section_pos(sep, items, j) by {
        lemma_section_step(sep, items, i);
        lemma_section_len_mono(sep, items, i + 1, j);
    }
}

/// Section length grows with the number of items.
pub proof fn lemma_section_len_mono(sep: Seq<char>, items: Seq<Seq<char>>, a: int, b: int)
    requires
        0 <= a <= b <= items.len(),
    ensures
        section(sep, items.take(a)).len() <= section(sep, items.take(b)).len(),
    decreases b - a,
{
    if a < b {
        lemma_section_step(sep, items, a);
        lemma_section_len_mono(sep, items, a + 1, b);
    }
}

/// Where name `i` starts inside the whole body.
pub open spec fn name_pos(names: Seq<Seq<char>>, i: int) -> int {
    "Failed units:"@.len() + section_pos(crlf(), names, i)
}

/// Where diagnostic text `i` starts inside the whole body.
pub open spec fn detail_pos(names: Seq<Seq<char>>, details: Seq<Seq<char>>, i: int) -> int {
    "Failed units:"@.len() + names_section(names).len() + "\r\n\r\n"@.len()
        + "Systemctl status output of failed units\r\n"@.len() + section_pos(spacer(), details, i)
}

/// The report body carries every unit name at its own place in the names
/// section, in encounter order and pairwise disjoint, and every diagnostic
/// text at its own place in the details section, in the same order.
pub proof fn lemma_body_positions(names: Seq<Seq<char>>, details: Seq<Seq<char>>)
    ensures
        forall|i: int|
            0 <= i < names.len() ==> body_of(names, details).subrange(
                #[trigger] name_pos(names, i),
                name_pos(names, i) + names[i].len(),
            ) == names[i],
        forall|i: int, j: int|
            0 <= i < j < names.len() ==> #[trigger] name_pos(names, i) + names[i].len()
                <= #[trigger] name_pos(names, j),
        forall|i: int|
            0 <= i < details.len() ==> body_of(names, details).subrange(
                #[trigger] detail_pos(names, details, i),
                detail_pos(names, details, i) + details[i].len(),
            ) == details[i],
        forall|i: int, j: int|
            0 <= i < j < details.len() ==> #[trigger] detail_pos(names, details, i)
                + details[i].len() <= #[trigger] detail_pos(names, details, j),
{
    lemma_section_positions(crlf(), names);
    lemma_section_positions(spacer(), details);
    let body = body_of(names, details);
    let h = "Failed units:"@.len() as int;
    let mid = "Failed units:"@ + names_section(names) + "\r\n\r\n"@
        + "Systemctl status output of failed units\r\n"@;
    assert forall|i: int| 0 <= i < names.len() implies body.subrange(
        name_pos(names, i),
        name_pos(names, i) + names[i].len(),
    ) == names[i] by {
        let pos = section_pos(crlf(), names, i);
        assert(body.subrange(h + pos, h + pos + names[i].len() as int) =~= names_section(
            names,
        ).subrange(pos, pos + names[i].len() as int));
    }
    assert forall|i: int| 0 <= i < details.len() implies body.subrange(
        detail_pos(names, details, i),
        detail_pos(names, details, i) + details[i].len(),
    ) == details[i] by {
        let pos = section_pos(spacer(), details, i);
        assert(body.subrange(
            mid.len() + pos,
            mid.len() + pos + details[i].len() as int,
        ) =~= details_section(details).subrange(pos, pos + details[i].len() as int));
    }
}

impl FailedUnits {
    /// The report body for this set: the names, then the diagnostic texts, in
    /// encounter order.
    pub fn render_body(&self) -> (r: String)
        requires
            self.wf(),
        ensures
            r@ == body_of(self.names.deep_view(), self.systemctl_full.deep_view()),
    {
        let ghost ns = self.names.deep_view();
        let ghost ds = self.systemctl_full.deep_view();
        let mut body = String::from_str("Failed units:");
        let mut full = String::from_str("Systemctl status output of failed units\r\n");
        let mut i: usize = 0;
        while i < self.names.len()
            invariant
                self.wf(),
                ns == self.names.deep_view(),
                ds == self.systemctl_full.deep_view(),
                i <= self.names@.len(),
                body@ == "Failed units:"@ + names_section(ns.take(i as int)),
                full@ == "Systemctl status output of failed units\r\n"@ + details_section(
                    ds.take(i as int),
                ),
            decreases self.names@.len() - i,
        {
            body.append("\r\n");
            body.append(self.names[i].as_str());
            full.append("\r\n\r\n\r\n");
            full.append(self.systemctl_full[i].as_str());
            proof {
                lemma_section_step(crlf(), ns, i as int);
                lemma_section_step(spacer(), ds, i as int);
                assert(ns[i as int] == self.names@[i as int]@);
                assert(ds[i as int] == self.systemctl_full@[i as int]@);
                assert(body@ =~= "Failed units:"@ + names_section(ns.take(i + 1)));
                assert(full@ =~= "Systemctl status output of failed units\r\n"@ + details_section(
                    ds.take(i + 1),
                ));
            }
            i = i + 1;
        }
        body.append("\r\n\r\n");
        body.append(full.as_str());
        proof {
            assert(ns.take(i as int) =~= ns);
            assert(ds.take(i as int) =~= ds);
            assert(body@ =~= body_of(ns, ds));
        }
        body
    }
}

/// Why a report mail could not be assembled.
#[derive(Clone, Copy, Debug, PartialEq, Eq, Structural)]
pub enum ReportError {
    /// The host's name could not be read from the system, or was not text.
    HostnameUnavailable,
    /// The sender line did not parse as a mailbox.
    InvalidSender,
    /// The recipient line did not parse as a mailbox.
    InvalidRecipient,
    /// The mail message was rejected during assembly.
    BuildRejected,
}

/// lettre's assembled mail message, opaque here; the caller hands it to the
/// mail transport.
#[verifier::external_type_specification]
#[verifier::external_body]
pub struct ExMessage(lettre::Message);

/// lettre's parsed address with display name, opaque here.
#[verifier::external_type_specification]
#[verifier::external_body]
pub struct ExMailbox(lettre::message::Mailbox);

/// lettre's address parse error, opaque here; mapped to `ReportError`.
#[verifier::external_type_specification]
#[verifier::external_body]
pub struct ExAddressError(lettre::address::AddressError);

/// lettre's message assembly error, opaque here; mapped to `ReportError`.
#[verifier::external_type_specification]
#[verifier::external_body]
pub struct ExEmailError(lettre::error::Error);

/// Whether lettre parses this text as one mailbox.
pub uninterp spec fn mailbox_ok(s: Seq<char>) -> bool;

/// Relies on `Mailbox`'s `FromStr` impl in lettre: whether an address line
/// parses is a function of its characters alone.
#[verifier::external_body]
fn parse_mailbox(s: &str) -> (r: Result<lettre::message::Mailbox, lettre::address::AddressError>)
    ensures
        r is Ok <==> mailbox_ok(s@),
{
    s.parse()
}

/// Relies on lettre's `MessageBuilder`: with exactly one sender and one
/// recipient mailbox set, a plain-text string body always assembles.
#[verifier::external_body]
fn build_message(
    from: lettre::message::Mailbox,
    to: lettre::message::Mailbox,
    subject: &str,
    body: String,
) -> (r: Result<lettre::Message, lettre::error::Error>)
    ensures
        r is Ok,
{
    lettre::Message::builder().from(from).to(to).subject(subject).header(
        lettre::message::header::ContentType::TEXT_PLAIN,
    ).body(body)
}

/// Relies on `rustix::system::uname`: the node name is this machine's host
/// name. Which text comes back depends on the machine, so nothing is promised
/// of it; a name that is not text yields `None`.
#[verifier::external_body]
fn uname_nodename() -> (r: Option<String>) {
    match String::from_utf8(rustix::system::uname().nodename().to_bytes().to_vec()) {
        Ok(h) => Some(h),
        Err(_) => None,
    }
}

impl FailedUnits {
    /// Assembles the report mail for this non-empty set: the sender line
    /// carries the given host name, the recipient line the given address, the
    /// subject is fixed, and the body is `render_body`'s. The message comes
    /// back ready for hand-off to the mail transport; an address line that
    /// does not parse is the only way to fail.
    pub fn mail(&self, email: &str, hostname: &str) -> (r: Result<lettre::Message, ReportError>)
        requires
            self.wf(),
            self.number > 0,
        ensures
            r is Ok <==> mailbox_ok(from_line(hostname@)) && mailbox_ok(to_line(email@)),
            !mailbox_ok(from_line(hostname@)) ==> (r matches Err(e) && e
                == ReportError::InvalidSender),
            mailbox_ok(from_line(hostname@)) && !mailbox_ok(to_line(email@)) ==> (r matches Err(e)
                && e == ReportError::InvalidRecipient),
    {
        let body = self.render_body();
        let from_s = render_from(hostname);
        let to_s = render_to(email);
        let from_mb = match parse_mailbox(from_s.as_str()) {
            Ok(m) => m,
            Err(_) => {
                return Err(ReportError::InvalidSender);
            },
        };
        let to_mb = match parse_mailbox(to_s.as_str()) {
            Ok(m) => m,
            Err(_) => {
                return Err(ReportError::InvalidRecipient);
            },
        };
        match build_message(from_mb, to_mb, "Failed Systemd-Units", body) {
            Ok(m) => Ok(m),
            Err(_) => Err(ReportError::BuildRejected),
        }
    }

    /// Assembles the report mail with this machine's own host name, read from
    /// the system. Whatever name the machine carries, a recipient address
    /// whose line does not parse never yields a message.
    pub fn mail_local(&self, email: &str) -> (r: Result<lettre::Message, ReportError>)
        requires
            self.wf(),
            self.number > 0,
        ensures
            !mailbox_ok(to_line(email@)) ==> r is Err,
            r matches Err(e) ==> (e == ReportError::HostnameUnavailable || e
                == ReportError::InvalidSender || e == ReportError::InvalidRecipient),
    {
        match uname_nodename() {
            Some(h) => self.mail(email, h.as_str()),
            None => Err(ReportError::HostnameUnavailable),
        }
    }
}

/// The sender line for this host.
pub fn render_from(hostname: &str) -> (r: String)
    ensures
        r@ == from_line(hostname@),
{
    let mut r = String::from_str("systemd ");
    r.append(hostname);
    r.append(" <mail@weriomat.com>");
    r
}

/// The recipient line for the administrator's address.
pub fn render_to(email: &str) -> (r: String)
    ensures
        r@ == to_line(email@),
{
    let mut r = String::from_str("admin <");
    r.append(email);
    r.append(">");
    r
}

} // verus!
