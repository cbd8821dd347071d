//! Mails: addresses, what is said to the server, and what the server's answers mean.

use crate::laws::notify::lemma_in_between;
use crate::num::{decimal, lemma_decimal};
use crate::server::notify_smtp::{
    base64_letter, base64_of, day_name, following, last_line, line_code, mail_address,
    mail_date, mail_refused, mail_text, month_name, said, sent_line, sent_lines, sextet,
    strip_line_ends, subject_of, two_digits, SmtpCfg, Stage,
};
use crate::text::{
    after, before, byte_len, contains, ends_with, first_index, is_ascii_graphic, is_control,
    is_digit, is_space, lemma_first_index, pieces, starts_with, trim_end, trim_start, };
use crate::server::notify_smtp::{complaint, reply_code, reply_of, Reply};
use crate::num::digits_value;
use vstd::prelude::*;
use vstd::string::*;
use vstd::utf8::encode_utf8;

verus! {

// ---------------------------------------------------------------------------
// Base64
// ---------------------------------------------------------------------------

/// Sixty-four letters stand for the numbers below sixty-four, each for one: first the capital letters,
/// then the small ones, then the digits, and last two signs.
pub proof fn lemma_letters(a: int, b: int)
    requires
        0 <= a < 64,
        0 <= b < 64,
    ensures
        base64_letter(a) == base64_letter(b) ==> a == b,
        base64_letter(a) != '=',
        base64_letter(0) == 'A',
        base64_letter(25) == 'Z',
        base64_letter(26) == 'a',
        base64_letter(51) == 'z',
        base64_letter(52) == '0',
        base64_letter(61) == '9',
        base64_letter(62) == '+',
        base64_letter(63) == '/',
{
}

/// Three bytes are told in four letters whose numbers, each worth sixty-four times the next, are worth as
/// much as the bytes, each worth two hundred and fifty-six times the next.
pub proof fn lemma_three_bytes(data: Seq<u8>, g: int)
    requires
        0 <= g,
        3 * g + 2 < data.len(),
    ensures
        ({
            let s = base64_of(data);
            let (a, b) = (sextet(data, 4 * g), sextet(data, 4 * g + 1));
            let (c, d) = (sextet(data, 4 * g + 2), sextet(data, 4 * g + 3));
            &&& 0 <= a < 64 && 0 <= b < 64 && 0 <= c < 64 && 0 <= d < 64
            &&& s[4 * g] == base64_letter(a)
            &&& s[4 * g + 1] == base64_letter(b)
            &&& s[4 * g + 2] == base64_letter(c)
            &&& s[4 * g + 3] == base64_letter(d)
            &&& 64 * (64 * (64 * a + b) + c) + d == 256 * (256 * data[3 * g] + data[3 * g + 1]) + data[
            3 * g + 2]
        }),
{
    assert((4 * g) / 4 == g && (4 * g) % 4 == 0);
    assert((4 * g + 1) / 4 == g && (4 * g + 1) % 4 == 1);
    assert((4 * g + 2) / 4 == g && (4 * g + 2) % 4 == 2);
    assert((4 * g + 3) / 4 == g && (4 * g + 3) % 4 == 3);
    let n = data.len() as int;
    assert(4 * g + 3 < 4 * ((n + 2) / 3));
}

/// One or two bytes at the end are told in as many letters and one, and the rest is filled.
pub proof fn lemma_last_bytes(data: Seq<u8>, g: int)
    requires
        0 <= g,
        data.len() == 3 * g + 1 || data.len() == 3 * g + 2,
    ensures
        ({
            let s = base64_of(data);
            let (a, b, c) = (
                sextet(data, 4 * g),
                sextet(data, 4 * g + 1),
                sextet(data, 4 * g + 2),
            );
            &&& s.len() == 4 * g + 4
            &&& 0 <= a < 64 && 0 <= b < 64 && 0 <= c < 64
            &&& s[4 * g] == base64_letter(a)
            &&& s[4 * g + 1] == base64_letter(b)
            &&& s[4 * g + 3] == '='
            &&& data.len() == 3 * g + 1 ==> s[4 * g + 2] == '=' && 64 * a + b == 16 * data[3 * g]
            &&& data.len() == 3 * g + 2 ==> s[4 * g + 2] == base64_letter(c) && 64 * (64 * a + b) + c
                == 4 * (256 * data[3 * g] + data[3 * g + 1])
        }),
{
    assert((4 * g) / 4 == g && (4 * g) % 4 == 0);
    assert((4 * g + 1) / 4 == g && (4 * g + 1) % 4 == 1);
    assert((4 * g + 2) / 4 == g && (4 * g + 2) % 4 == 2);
    assert((4 * g + 3) / 4 == g && (4 * g + 3) % 4 == 3);
    let n = data.len() as int;
    assert((n + 2) / 3 == g + 1);
}

// ---------------------------------------------------------------------------
// Dates
// ---------------------------------------------------------------------------

/// The days and months are called by the first three letters of their names, in their order.
pub proof fn lemma_names(w: int, m: int)
    requires
        0 <= w < 7,
        1 <= m <= 12,
    ensures
        day_name(w) == "SunMonTueWedThuFriSat"@.subrange(3 * w, 3 * w + 3),
        month_name(m) == "JanFebMarAprMayJunJulAugSepOctNovDec"@.subrange(3 * m - 3, 3 * m),
{
    reveal_strlit("SunMonTueWedThuFriSat");
    reveal_strlit("Sun");
    reveal_strlit("Mon");
    reveal_strlit("Tue");
    reveal_strlit("Wed");
    reveal_strlit("Thu");
    reveal_strlit("Fri");
    reveal_strlit("Sat");
    assert(day_name(w) =~= "SunMonTueWedThuFriSat"@.subrange(3 * w, 3 * w + 3));
    lemma_month_names(m);
}

proof fn lemma_month_names(m: int)
    requires
        1 <= m <= 12,
    ensures
        month_name(m) == "JanFebMarAprMayJunJulAugSepOctNovDec"@.subrange(3 * m - 3, 3 * m),
{
    reveal_strlit("JanFebMarAprMayJunJulAugSepOctNovDec");
    reveal_strlit("Jan");
    reveal_strlit("Feb");
    reveal_strlit("Mar");
    reveal_strlit("Apr");
    reveal_strlit("May");
    reveal_strlit("Jun");
    reveal_strlit("Jul");
    reveal_strlit("Aug");
    reveal_strlit("Sep");
    reveal_strlit("Oct");
    reveal_strlit("Nov");
    reveal_strlit("Dec");
    assert(month_name(m) =~= "JanFebMarAprMayJunJulAugSepOctNovDec"@.subrange(3 * m - 3, 3 * m));
}

/// A date tells the day of the week, which comes back every seven days from the Thursday on which time
/// begins, the day, the month and the year, and then hours, minutes and seconds.
pub proof fn lemma_date(z: int, y: int, mo: int, d: int, h: int, mi: int, s: int)
    requires
        crate::calendar::valid_date(y, mo, d),
        crate::calendar::day_number(y, mo, d) == z,
        0 <= h < 24,
        0 <= mi < 60,
        0 <= s < 60,
    ensures
        mail_date(86_400 * z + 3600 * h + 60 * mi + s) == day_name((z + 4) % 7) + ", "@ + two_digits(d)
            + " "@ + month_name(mo) + " "@ + crate::num::decimal_int(y) + " "@ + two_digits(h) + ":"@
            + two_digits(mi) + ":"@ + two_digits(s) + " +0000"@,
        z % 7 == 0 ==> day_name((z + 4) % 7) == "Thu"@,
{
    let t = 86_400 * z + 3600 * h + 60 * mi + s;
    let r = 3600 * h + 60 * mi + s;
    assert(t / 86_400 == z && t % 86_400 == r) by (nonlinear_arith)
        requires
            t == 86_400 * z + r,
            0 <= r < 86_400,
    ;
    assert(r / 3600 == h && r % 3600 == 60 * mi + s);
    assert((60 * mi + s) / 60 == mi && r % 60 == s);
    crate::calendar::lemma_date_of(z, y, mo, d);
}

// ---------------------------------------------------------------------------
// Addresses
// ---------------------------------------------------------------------------

/// A name, the sign and a domain with a point in it make an address, where they can be shown and are not
/// too long; and what has no such sign is none.
pub proof fn lemma_addresses(name: Seq<char>, domain: Seq<char>)
    requires
        name.len() > 0,
        domain.len() >= 3,
        !name.contains('@'),
        !domain.contains('@'),
        domain.contains('.'),
        domain[0] != '.',
        domain.last() != '.',
        forall|i: int| 0 <= i < name.len() ==> is_ascii_graphic(#[trigger] name[i]),
        forall|i: int| 0 <= i < domain.len() ==> is_ascii_graphic(#[trigger] domain[i]),
        byte_len(name + seq!['@'] + domain) <= 254,
        3 <= byte_len(name + seq!['@'] + domain),
    ensures
        mail_address(name + seq!['@'] + domain),
        !mail_address(name),
{
    let s = name + seq!['@'] + domain;
    assert forall|i: int| 0 <= i < s.len() implies is_ascii_graphic(#[trigger] s[i]) by {
        if i < name.len() {
            assert(s[i] == name[i]);
        } else if i > name.len() {
            assert(s[i] == domain[i - name.len() - 1]);
        }
    }
    assert forall|i: int| 0 <= i < s.len() implies !is_control(#[trigger] s[i]) by {
        assert(is_ascii_graphic(s[i]));
    }
    assert(is_ascii_graphic(s[0]) && is_ascii_graphic(s.last()));
    assert(!is_space(s[0]) && !is_space(s.last()));
    assert(trim_start(s) == s && trim_end(s) == s);
    assert(s[name.len() as int] == '@');
    assert(s.contains('@'));
    lemma_first_index(s, '@');
    let k = first_index(s, '@');
    assert(k == name.len()) by {
        if k < name.len() {
            assert(name[k] == s[k]);
        }
    }
    assert(before(s, '@') =~= name);
    assert(after(s, '@') =~= domain);
    assert(is_ascii_graphic(name[0]) && is_ascii_graphic(name.last()));
    assert(trim_start(name) == name && trim_end(name) == name);
}

/// A mail is sent exactly where the server, both addresses and the account are told and not too long.
pub proof fn lemma_mails_to_be_sent(c: SmtpCfg)
    ensures
        mail_refused(c) is None <==> {
            &&& c.host@.len() > 0 && byte_len(c.host@) <= 255
            &&& mail_address(c.from@)
            &&& mail_address(c.to@)
            &&& c.username@.len() > 0 && byte_len(c.username@) <= 320
            &&& byte_len(c.password@) <= 256
        },
{
}

// ---------------------------------------------------------------------------
// The mail
// ---------------------------------------------------------------------------

/// A line is sent as it is, with its end; one that begins with a point gets one more, which the receiver
/// takes away.
pub proof fn lemma_line_as_sent(l: Seq<char>)
    requires
        l.len() > 0 ==> l.last() != '\r',
    ensures
        l.len() == 0 || l[0] != '.' ==> sent_line(l) == l + seq!['\r', '\n'],
        l.len() > 0 && l[0] == '.' ==> sent_line(l).drop_first() == l + seq!['\r', '\n'] && sent_line(
            l,
        )[0] == '.',
        sent_line(l.push('\r')) == sent_line(l),
{
    let c = l.push('\r');
    assert(c.drop_last() =~= l);
    if l.len() > 0 && l[0] == '.' {
        assert(sent_line(l).drop_first() =~= l + seq!['\r', '\n']);
    }
}

/// Lines are sent one behind the other.
pub proof fn lemma_lines_as_sent(a: Seq<Seq<char>>, l: Seq<char>)
    ensures
        sent_lines(a.push(l)) == sent_lines(a) + sent_line(l),
        sent_lines(Seq::empty()) == Seq::<char>::empty(),
{
    assert(a.push(l).drop_last() =~= a);
}

/// A mail tells from whom it is, to whom, about what and when, and ends with its text, behind an empty
/// line, and the point that ends it.
#[verifier::rlimit(40)]
pub proof fn lemma_mail(
    from: Seq<char>,
    to: Seq<char>,
    subj: Seq<char>,
    body: Seq<char>,
    date: Seq<char>,
)
    ensures
        ({
            let s = mail_text(from, to, subj, body, date);
            &&& starts_with(s, "From: <"@ + from + ">\r\nTo: <"@ + to + ">\r\n"@)
            &&& contains(
                s,
                "\r\nSubject: =?UTF-8?B?"@ + base64_of(encode_utf8(subj)) + "?=\r\n"@,
            )
            &&& contains(s, "\r\nDate: "@ + date + "\r\n"@)
            &&& ends_with(s, "\r\n\r\n"@ + sent_lines(pieces(body, '\n')) + ".\r\n"@)
        }),
{
    let s = mail_text(from, to, subj, body, date);
    let b = base64_of(encode_utf8(subj));
    let t = sent_lines(pieces(body, '\n'));
    reveal_strlit(">\r\n");
    reveal_strlit("\r\n");
    reveal_strlit("\r\n\r\n");
    reveal_strlit(">");
    reveal_strlit(">\r\nSubject: =?UTF-8?B?");
    reveal_strlit("\r\nSubject: =?UTF-8?B?");
    reveal_strlit("Subject: =?UTF-8?B?");
    reveal_strlit("?=\r\nDate: ");
    reveal_strlit("?=\r\n");
    reveal_strlit("?=");
    reveal_strlit("\r\nDate: ");
    reveal_strlit("Date: ");
    reveal_strlit(
        "\r\nMIME-Version: 1.0\r\nContent-Type: text/plain; charset=UTF-8\r\nContent-Transfer-Encoding: 8bit\r\n\r\n",
    );
    reveal_strlit(
        "MIME-Version: 1.0\r\nContent-Type: text/plain; charset=UTF-8\r\nContent-Transfer-Encoding: 8bit",
    );
    let m =
        "MIME-Version: 1.0\r\nContent-Type: text/plain; charset=UTF-8\r\nContent-Transfer-Encoding: 8bit"@;
    let e = "\r\n"@;
    let h = "From: <"@ + from + ">\r\nTo: <"@ + to;
    assert(">\r\nSubject: =?UTF-8?B?"@ =~= ">"@ + "\r\nSubject: =?UTF-8?B?"@);
    assert("\r\nSubject: =?UTF-8?B?"@ =~= e + "Subject: =?UTF-8?B?"@);
    assert(">\r\n"@ =~= ">"@ + e);
    assert("?=\r\nDate: "@ =~= "?=\r\n"@ + "Date: "@);
    assert("?=\r\n"@ =~= "?="@ + e);
    assert("\r\nDate: "@ =~= e + "Date: "@);
    assert("\r\n\r\n"@ =~= e + e);
    assert("\r\nMIME-Version: 1.0\r\nContent-Type: text/plain; charset=UTF-8\r\nContent-Transfer-Encoding: 8bit\r\n\r\n"@
        =~= e + m + "\r\n\r\n"@);
    let f = ".\r\n"@;
    let a = "\r\nSubject: =?UTF-8?B?"@ + b + "?=\r\n"@;
    let z = "\r\n\r\n"@ + t + f;
    let d = "Date: "@ + date + e;
    let x = h + ">"@ + a + d + m + z;
    assert(s =~= x);
    let g = h + ">\r\n"@;
    assert(s.take(g.len() as int) =~= g);
    lemma_in_between(h + ">"@, a, d + m + z);
    assert(h + ">"@ + a + (d + m + z) =~= s);
    let k = h + ">"@ + "\r\nSubject: =?UTF-8?B?"@ + b + "?="@;
    lemma_in_between(k, "\r\nDate: "@ + date + e, m + z);
    assert(k + ("\r\nDate: "@ + date + e) + (m + z) =~= s);
    assert(s.skip(s.len() - z.len()) =~= z);
}

/// To a server is said who is there, then the account and its password, then from whom and to whom, and
/// then the mail.
pub proof fn lemma_what_is_said(c: SmtpCfg, subject: Seq<char>, body: Seq<char>, now: int)
    ensures
        starts_with(said(Stage::Greeting, c, subject, body, now), "EHLO "@),
        said(Stage::Hello, c, subject, body, now) == "AUTH LOGIN\r\n"@,
        said(Stage::Login, c, subject, body, now) == base64_of(encode_utf8(c.username@)) + "\r\n"@,
        said(Stage::Name, c, subject, body, now) == base64_of(encode_utf8(c.password@)) + "\r\n"@,
        contains(said(Stage::Secret, c, subject, body, now), "MAIL FROM:<"@ + c.from@ + ">"@),
        contains(said(Stage::From, c, subject, body, now), "RCPT TO:<"@ + c.to@ + ">"@),
        said(Stage::To, c, subject, body, now) == "DATA\r\n"@,
        said(Stage::Data, c, subject, body, now) == mail_text(
            c.from@,
            c.to@,
            subject_of(subject),
            body,
            mail_date(now),
        ),
        following(following(following(Stage::Login))) == Stage::From,
{
    reveal_strlit("EHLO outpost\r\n");
    reveal_strlit("EHLO ");
    reveal_strlit(">\r\n");
    reveal_strlit(">");
    reveal_strlit("\r\n");
    assert("EHLO outpost\r\n"@.take(5) =~= "EHLO "@);
    let e = Seq::<char>::empty();
    let a = "MAIL FROM:<"@ + c.from@ + ">"@;
    let b = "RCPT TO:<"@ + c.to@ + ">"@;
    lemma_in_between(e, a, "\r\n"@);
    lemma_in_between(e, b, "\r\n"@);
    assert(said(Stage::Secret, c, subject, body, now) =~= e + a + "\r\n"@);
    assert(said(Stage::From, c, subject, body, now) =~= e + b + "\r\n"@);
}

// ---------------------------------------------------------------------------
// Answers
// ---------------------------------------------------------------------------

/// A line of an answer tells a code in its first three digits, and is the last where a space follows.
pub proof fn lemma_code_of_a_line(n: nat, rest: Seq<char>)
    requires
        100 <= n <= 999,
    ensures
        line_code(decimal(n) + seq![' '] + rest) == Some(n as u16),
        line_code(decimal(n) + seq!['-'] + rest) is None,
{
    lemma_decimal(n);
    reveal_with_fuel(decimal, 4);
    let d = decimal(n);
    assert(d.len() == 3);
    let (a, b) = (d + seq![' '] + rest, d + seq!['-'] + rest);
    assert(is_digit(d[0]) && is_digit(d[1]) && is_digit(d[2]));
    assert(a[0] == d[0] && a[1] == d[1] && a[2] == d[2] && a[3] == ' ');
    assert(b[3] == '-');
    assert(a.take(3) =~= d);
}

proof fn lemma_last_line(head: Seq<char>, l: Seq<char>)
    requires
        !l.contains('\n'),
    ensures
        last_line(head + seq!['\r', '\n'] + l) == l,
    decreases l.len(),
{
    let s = head + seq!['\r', '\n'] + l;
    if l.len() == 0 {
        assert(s.last() == '\n' && s[s.len() - 2] == '\r');
        assert(l =~= Seq::empty());
    } else {
        let t = l.drop_last();
        assert(!t.contains('\n')) by {
            if t.contains('\n') {
                let i = choose|i: int| 0 <= i < t.len() && t[i] == '\n';
                assert(l[i] == '\n');
            }
        }
        lemma_last_line(head, t);
        assert(s.drop_last() =~= head + seq!['\r', '\n'] + t);
        assert(s.last() == l[l.len() - 1]);
        assert(l[l.len() - 1] != '\n');
        assert(t.push(l.last()) =~= l);
    }
}

/// What an answer of several lines means is what its last line says.
pub proof fn lemma_last_line_of_an_answer(head: Seq<char>, l: Seq<char>)
    requires
        l.len() > 0,
        !l.contains('\n'),
    ensures
        last_line(strip_line_ends(head + seq!['\r', '\n'] + l + seq!['\r', '\n'])) == l,
{
    let t = head + seq!['\r', '\n'] + l;
    let s = t + seq!['\r', '\n'];
    assert(s[s.len() - 2] == '\r' && s.last() == '\n');
    assert(s.take(s.len() - 2) =~= t);
    assert(t.last() == l[l.len() - 1]);
    assert(l[l.len() - 1] != '\n');
    assert(strip_line_ends(t) == t);
    lemma_last_line(head, l);
}

/// An answer is read to its end, and no further than sixteen kibibytes. A complaint names the status that
/// came.
pub proof fn lemma_answers_and_complaints(buf: Seq<u8>, stage: Stage, code: u16)
    ensures
        buf.len() > 16 * 1024 ==> reply_of(buf) is TooLong,
        buf.len() <= 16 * 1024 && reply_code(buf) is None ==> reply_of(buf) is More,
        buf.len() <= 16 * 1024 && reply_code(buf) is Some ==> reply_of(buf) == (Reply::Whole {
            code: reply_code(buf)->0,
        }),
        stage !is Greeting ==> contains(complaint(stage, code), decimal(code as nat)),
{
    let n = decimal(code as nat);
    let e = Seq::<char>::empty();
    lemma_in_between("邮件提交返回 "@, n, e);
    assert("邮件提交返回 "@ + n + e =~= "邮件提交返回 "@ + n);
    let t = "(期望 "@ + decimal(crate::server::notify_smtp::wanted(stage) as nat) + ")"@;
    lemma_in_between("SMTP 返回 "@, n, t);
    assert("SMTP 返回 "@ + n + t =~= "SMTP 返回 "@ + n + "(期望 "@ + decimal(
        crate::server::notify_smtp::wanted(stage) as nat,
    ) + ")"@);
}

/// A number below a hundred is told in two digits that stand for it.
pub proof fn lemma_two_digits(n: int)
    requires
        0 <= n < 100,
    ensures
        two_digits(n).len() == 2,
        digits_value(two_digits(n)) == n,
{
    lemma_decimal(n as nat);
    reveal_with_fuel(decimal, 3);
    let d = decimal(n as nat);
    if n < 10 {
        let s = two_digits(n);
        assert(d.len() == 1);
        assert(s =~= seq!['0'] + d);
        reveal_with_fuel(digits_value, 3);
        assert(s.drop_last() =~= seq!['0']);
        assert(seq!['0'].drop_last() =~= Seq::empty());
        assert(d.drop_last() =~= Seq::empty());
        assert(s.last() == d.last());
    } else {
        assert(d.len() == 2);
        assert(two_digits(n) =~= d);
    }
}

} // verus!
