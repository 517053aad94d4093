//! Laws of the conversation with a server: which addresses may be used, what requests say,
//! and what a listing gives.

use crate::cloud::chunks::chunk_name_of;
use crate::cloud::nextcloud::{
    assemble, mkcol, propfind, put_file, put_part, rel_path, DavBody, NextcloudUploader,
};
use crate::cloud::webdav::{
    encoded_byte, file_address, first_length, link_part, upload_dir, ListingModel,
};
use crate::cloud::{authority_of, host_of, loopback, uploader_for, valid_base_url};
use crate::config::CloudConfig;
use crate::credentials::SecretModel;
use crate::error::CoreError;
use crate::text::{
    all_digits, cut_first, cut_last, decimal, decimal_int, digits_value, is_digit,
    lemma_decimal_value, lemma_first_index_is, lemma_last_index_is, lemma_trimmed_end_is,
    lemma_trimmed_start_is, lowered, trimmed, written_numbers_read_back, zero_padded, CharSet,
};
use crate::xml::{lemma_last_colon_is, local_name, XmlToken};
use vstd::prelude::*;
use vstd::utf8::encode_utf8;

verus! {

// ---- addresses that a mirror may use ----------------------------------------

/// True of a character that stands in the name of a host: a letter, a digit, a dot or a
/// hyphen.
pub open spec fn host_char(c: char) -> bool {
    'a' <= c <= 'z' || 'A' <= c <= 'Z' || '0' <= c <= '9' || c == '.' || c == '-'
}

/// True of the name of a host.
pub open spec fn host_name(h: Seq<char>) -> bool {
    h.len() > 0 && forall|i: int| 0 <= i < h.len() ==> host_char(#[trigger] h[i])
}

proof fn lemma_no_char(s: Seq<char>, c: char)
    requires
        forall|i: int| 0 <= i < s.len() ==> #[trigger] s[i] != c,
    ensures
        cut_last(s, c) is None,
        cut_first(s, c) is None,
        !s.contains(c),
{
    lemma_last_index_is(s, c, -1);
    lemma_first_index_is(s, c, s.len() as int);
}

proof fn lemma_untrimmed(s: Seq<char>)
    requires
        s.len() > 0,
        !CharSet::Space.has(s[0]),
        !CharSet::Space.has(s.last()),
    ensures
        trimmed(s, CharSet::Space) == s,
{
    lemma_trimmed_start_is(s, CharSet::Space, 0);
    assert(s.skip(0) =~= s);
    lemma_trimmed_end_is(s, CharSet::Space, s.len() as int);
    assert(s.take(s.len() as int) =~= s);
}

proof fn lemma_host(h: Seq<char>)
    requires
        host_name(h),
    ensures
        host_of(h) == Some(h),
        trimmed(h, CharSet::Space) == h,
        authority_of(h) == h,
{
    assert forall|i: int| 0 <= i < h.len() implies #[trigger] h[i] != '@' && h[i] != ':' && h[i]
        != '/' by {
        assert(host_char(h[i]));
    }
    assert(host_char(h[0]));
    assert(host_char(h[h.len() - 1]));
    lemma_no_char(h, '@');
    lemma_no_char(h, ':');
    lemma_no_char(h, '/');
    lemma_untrimmed(h);
}

proof fn lemma_host_with_port(h: Seq<char>, port: Seq<char>)
    requires
        host_name(h),
        all_digits(port),
    ensures
        host_of(h + ":"@ + port) == Some(h),
        authority_of(h + ":"@ + port) == h + ":"@ + port,
        trimmed(h + ":"@ + port, CharSet::Space).len() > 0,
{
    reveal_strlit(":");
    let a = h + ":"@ + port;
    let k = h.len() as int;
    assert forall|i: int| 0 <= i < a.len() implies #[trigger] a[i] != '@' && a[i] != '/' by {
        if i < k {
            assert(a[i] == h[i]);
            assert(host_char(h[i]));
        } else if i > k {
            assert(a[i] == port[i - k - 1]);
            assert(is_digit(port[i - k - 1]));
        }
    }
    assert(a[0] == h[0]);
    assert(host_char(h[0]));
    assert(is_digit(port[port.len() - 1]));
    assert(a.last() == port[port.len() - 1]);
    lemma_no_char(a, '@');
    lemma_no_char(a, '/');
    assert forall|i: int| 0 <= i < h.len() implies #[trigger] h[i] != ':' by {
        assert(host_char(h[i]));
    }
    lemma_no_char(h, ':');
    assert forall|j: int| k < j < a.len() implies a[j] != ':' by {
        assert(is_digit(port[j - k - 1]));
    }
    lemma_last_index_is(a, ':', k);
    assert(a.take(k) =~= h);
    assert(a.skip(k + 1) =~= port);
    lemma_untrimmed(a);
}

/// A named host is this machine if and only if it is `localhost` or `127.0.0.1`, in upper or
/// lower case, with or without a port.
pub proof fn only_these_names_are_this_machine(h: Seq<char>, port: Seq<char>)
    requires
        host_name(h),
        all_digits(port),
    ensures
        loopback(h) <==> lowered(h) == "localhost"@ || lowered(h) == "127.0.0.1"@,
        loopback(h + ":"@ + port) == loopback(h),
{
    lemma_host(h);
    lemma_host_with_port(h, port);
    reveal_strlit("::1");
    if lowered(h) == "::1"@ {
        assert(host_char(h[0]));
        assert(lowered(h)[0] == ':');
        if 'A' <= h[0] <= 'Z' {
            assert((h[0] as int + 32) as char as int == h[0] as int + 32);
        }
    }
}

/// With `https://` every named host is accepted, and with `http://` only this machine.
/// Nothing without one of the two is accepted, and neither without a host.
pub proof fn only_this_machine_is_spoken_to_in_the_clear(h: Seq<char>)
    requires
        host_name(h),
    ensures
        valid_base_url("https://"@ + h),
        valid_base_url("http://"@ + h) <==> lowered(h) == "localhost"@ || lowered(h)
            == "127.0.0.1"@,
        !valid_base_url("https://"@),
        !valid_base_url("http://"@),
        !valid_base_url(h),
{
    reveal_strlit("https://");
    reveal_strlit("http://");
    lemma_host(h);
    only_these_names_are_this_machine(h, seq!['1']);
    let s = "https://"@ + h;
    let c = "http://"@ + h;
    assert(s.subrange(0, 8) =~= "https://"@);
    assert(s.skip(8) =~= h);
    assert(c.subrange(0, 7) =~= "http://"@);
    assert(c.skip(7) =~= h);
    assert(!"https://"@.is_prefix_of(c)) by {
        if "https://"@.is_prefix_of(c) {
            assert(c.subrange(0, 8)[4] == c[4]);
        }
    }
    assert("https://"@.subrange(0, 8) =~= "https://"@);
    assert("http://"@.subrange(0, 7) =~= "http://"@);
    let none = Seq::<char>::empty();
    assert("https://"@.skip(8) =~= none);
    assert("http://"@.skip(7) =~= none);
    lemma_no_char(none, '/');
    assert(trimmed(none, CharSet::Space) =~= none);
    assert(!"http://"@.is_prefix_of(h)) by {
        if "http://"@.is_prefix_of(h) {
            assert(h.subrange(0, 7)[4] == h[4]);
            assert(host_char(h[4]));
        }
    }
    assert(!"https://"@.is_prefix_of(h)) by {
        if "https://"@.is_prefix_of(h) {
            assert(h.subrange(0, 8)[5] == h[5]);
            assert(host_char(h[5]));
        }
    }
}

/// An uploader speaks to the address of its destination, with the password of the credential
/// and with its user name, or that of the destination where the credential has none. Without
/// a credential there is none, and a lookup that failed is passed on.
pub proof fn an_uploader_has_its_credential(
    cfg: CloudConfig<Seq<char>>,
    secret: SecretModel,
    e: CoreError<Seq<char>>,
)
    ensures
        uploader_for(cfg, Err(e)) == Err::<NextcloudUploader<Seq<char>>, CoreError<Seq<char>>>(e),
        uploader_for(cfg, Ok(None)) is Err,
        uploader_for(cfg, Ok(None))->Err_0 is Config,
        uploader_for(cfg, Ok(Some(secret))) matches Ok(u) && {
            &&& u.base_url == cfg.base_url
            &&& u.app_password == secret.app_password
            &&& secret.username.len() > 0 ==> u.username == secret.username
            &&& secret.username.len() == 0 ==> u.username == cfg.username
            &&& u.remote_root == cfg.remote_root
            &&& u.chunk_threshold == cfg.chunk_threshold
            &&& u.tls_ca_pem == cfg.tls_ca_pem
        },
{
}

// ---- where things stand on the server ---------------------------------------

/// The addresses of files and of upload directories begin with the address of the server,
/// without the separator at its end.
pub proof fn addresses_begin_with_the_server(
    base: Seq<char>,
    user: Seq<char>,
    rel: Seq<char>,
    id: Seq<char>,
)
    requires
        base.len() > 0 ==> base.last() != '/',
    ensures
        file_address(base, user, rel) == base + "/remote.php/dav/files/"@ + user + "/"@
            + crate::cloud::webdav::encoded_path(rel),
        upload_dir(base, user, id) == base + "/remote.php/dav/uploads/"@ + user + "/"@ + id,
        file_address(base + "/"@, user, rel) == file_address(base, user, rel),
        upload_dir(base + "/"@, user, id) == upload_dir(base, user, id),
{
    reveal_strlit("/");
    let set = CharSet::Only('/');
    let b = base + "/"@;
    lemma_trimmed_end_is(base, set, base.len() as int);
    assert(base.take(base.len() as int) =~= base);
    lemma_trimmed_end_is(b, set, base.len() as int);
    assert(b.take(base.len() as int) =~= base);
}

/// A file stands below the root of its destination: the root without separators around it,
/// one separator and the path of the file; or just that path, without a root.
pub proof fn a_file_stands_below_the_root(root: Seq<char>, file: Seq<char>)
    requires
        root.len() > 0 ==> root[0] != '/' && root.last() != '/',
        file.len() > 0 ==> file[0] != '/',
    ensures
        root.len() == 0 ==> rel_path(root, file) == file,
        root.len() > 0 ==> rel_path(root, file) == root + "/"@ + file,
        rel_path("/"@ + root, "/"@ + file) == rel_path(root, file),
        root.len() > 0 ==> rel_path(root + "/"@, file) == rel_path(root, file),
{
    reveal_strlit("/");
    let set = CharSet::Only('/');
    let n = root.len() as int;
    lemma_trimmed_start_is(root, set, 0);
    assert(root.skip(0) =~= root);
    lemma_trimmed_end_is(root, set, n);
    assert(root.take(n) =~= root);
    lemma_trimmed_start_is(file, set, 0);
    assert(file.skip(0) =~= file);
    let f = "/"@ + file;
    lemma_trimmed_start_is(f, set, 1);
    assert(f.skip(1) =~= file);
    let r = "/"@ + root;
    lemma_trimmed_start_is(r, set, 1);
    assert(r.skip(1) =~= root);
    let t = root + "/"@;
    if n > 0 {
        lemma_trimmed_start_is(t, set, 0);
        assert(t.skip(0) =~= t);
        lemma_trimmed_end_is(t, set, n);
        assert(t.take(n) =~= root);
    }
}

// ---- requests ---------------------------------------------------------------

/// What the requests of an upload say: a file is sent whole, with its length, its checksum and
/// the time of its change; a part is sent as the bytes that it holds, with their number, the
/// length of the file and its address; the parts are put together at the address of the file.
pub proof fn requests_say_what_is_sent(
    url: Seq<char>,
    dest: Seq<char>,
    offset: u64,
    len: u64,
    total: u64,
    md5: Seq<char>,
    mtime: i64,
)
    ensures
        ({
            let file = put_file(url, total, md5, Some(mtime));
            let part = put_part(url, dest, offset, len, total);
            let whole = assemble(url, dest, total, Some(md5), Some(mtime));
            &&& file.method == "PUT"@ && file.url == url
            &&& file.body == (DavBody::<Seq<char>>::File { offset: 0, len: total })
            &&& file.headers[0] == ("Content-Length"@, decimal(total as nat))
            &&& file.headers[1] == ("OC-Checksum"@, "md5:"@ + md5)
            &&& file.headers[3] == ("X-OC-Mtime"@, decimal_int(mtime as int))
            &&& put_file(url, total, md5, None).headers == file.headers.drop_last()
            &&& part.method == "PUT"@ && part.url == url
            &&& part.body == (DavBody::<Seq<char>>::File { offset, len })
            &&& part.headers[0] == ("Destination"@, dest)
            &&& part.headers[1] == ("OC-Total-Length"@, decimal(total as nat))
            &&& part.headers[2] == ("Content-Length"@, decimal(len as nat))
            &&& whole.method == "MOVE"@ && whole.url == url
            &&& whole.body is Empty
            &&& whole.headers[0] == ("Destination"@, dest)
            &&& whole.headers[1] == ("OC-Total-Length"@, decimal(total as nat))
            &&& whole.headers[2] == ("OC-Checksum"@, "md5:"@ + md5)
            &&& whole.headers[3] == ("X-OC-Mtime"@, decimal_int(mtime as int))
            &&& mkcol(url, None).method == "MKCOL"@ && mkcol(url, None).url == url
            &&& mkcol(url, None).headers.len() == 0 && mkcol(url, None).body is Empty
            &&& mkcol(url, Some(dest)).headers == seq![("Destination"@, dest)]
            &&& propfind(url, "0"@, dest).method == "PROPFIND"@ && propfind(url, "0"@, dest).url
                == url
            &&& propfind(url, "0"@, dest).headers[0] == ("Depth"@, "0"@)
            &&& propfind(url, "0"@, dest).body == DavBody::Text(dest)
        }),
{
    let file = put_file(url, total, md5, Some(mtime));
    assert(put_file(url, total, md5, None).headers =~= file.headers.drop_last());
}

// ---- listings ---------------------------------------------------------------

/// The local name of a tag is what follows its prefix, whatever the prefix.
pub proof fn a_prefix_does_not_matter(prefix: Seq<u8>, local: Seq<u8>)
    requires
        forall|i: int| 0 <= i < local.len() ==> #[trigger] local[i] != 58,
    ensures
        local_name(prefix + seq![58u8] + local) == local,
        local_name(local) == local,
{
    let q = prefix + seq![58u8] + local;
    let k = prefix.len() as int;
    assert forall|j: int| k < j < q.len() implies q[j] != 58 by {
        assert(q[j] == local[j - k - 1]);
    }
    lemma_last_colon_is(q, k);
    assert(q.skip(k + 1) =~= local);
    lemma_last_colon_is(local, -1);
    assert(local.skip(0) =~= local);
}

/// The first length of a listing is the number that its first length element holds, whatever
/// stands before that element and behind it.
pub proof fn the_first_length_is_read(
    before: Seq<XmlToken<Seq<u8>, Seq<char>>>,
    tag: Seq<u8>,
    n: u64,
    rest: Seq<XmlToken<Seq<u8>, Seq<char>>>,
)
    requires
        local_name(tag) == encode_utf8("getcontentlength"@),
        forall|i: int| 0 <= i < before.len() ==> match #[trigger] before[i] {
            XmlToken::Start(t) => local_name(t) != encode_utf8("getcontentlength"@),
            XmlToken::Eof | XmlToken::Bad => false,
            _ => true,
        },
    ensures
        first_length(
            before + seq![XmlToken::Start(tag), XmlToken::Text(Some(decimal(n as nat)))] + rest,
            false,
        ) == Some(n as nat),
    decreases before.len(),
{
    let all = before + seq![XmlToken::Start(tag), XmlToken::Text(Some(decimal(n as nat)))] + rest;
    if before.len() == 0 {
        let d = decimal(n as nat);
        lemma_decimal_value(n as nat);
        assert(is_digit(d[0]));
        assert(is_digit(d[d.len() - 1]));
        lemma_untrimmed(d);
        written_numbers_read_back(n as nat, u64::MAX as nat);
        assert(all[0] == XmlToken::<Seq<u8>, Seq<char>>::Start(tag));
        let one = all.drop_first();
        assert(one[0] == XmlToken::<Seq<u8>, Seq<char>>::Text(Some(d)));
        assert(first_length(one, true) == Some(n as nat));
    } else {
        let tail = before.drop_first();
        assert forall|i: int| 0 <= i < tail.len() implies match #[trigger] tail[i] {
            XmlToken::Start(t) => local_name(t) != encode_utf8("getcontentlength"@),
            XmlToken::Eof | XmlToken::Bad => false,
            _ => true,
        } by {
            assert(tail[i] == before[i + 1]);
        }
        the_first_length_is_read(tail, tag, n, rest);
        assert(all[0] == before[0]);
        assert(all.drop_first() =~= tail + seq![
            XmlToken::Start(tag),
            XmlToken::Text(Some(decimal(n as nat))),
        ] + rest);
    }
}

/// A listing without a length element gives no length.
pub proof fn no_length_is_made_up(tokens: Seq<XmlToken<Seq<u8>, Seq<char>>>)
    requires
        forall|i: int| 0 <= i < tokens.len() ==> match #[trigger] tokens[i] {
            XmlToken::Start(t) => local_name(t) != encode_utf8("getcontentlength"@),
            _ => true,
        },
    ensures
        first_length(tokens, false) is None,
    decreases tokens.len(),
{
    if tokens.len() > 0 {
        let tail = tokens.drop_first();
        assert forall|i: int| 0 <= i < tail.len() implies match #[trigger] tail[i] {
            XmlToken::Start(t) => local_name(t) != encode_utf8("getcontentlength"@),
            _ => true,
        } by {
            assert(tail[i] == tokens[i + 1]);
        }
        assert(match tokens[0] {
            XmlToken::Start(t) => local_name(t) != encode_utf8("getcontentlength"@),
            _ => true,
        });
        no_length_is_made_up(tail);
    }
}

proof fn lemma_padded(s: Seq<char>, width: nat)
    requires
        all_digits(s),
        s.len() <= width,
    ensures
        all_digits(zero_padded(s, width)),
        zero_padded(s, width).len() == width,
        digits_value(zero_padded(s, width)) == digits_value(s),
    decreases width,
{
    if s.len() < width {
        lemma_padded(s, (width - 1) as nat);
        let t = zero_padded(s, (width - 1) as nat);
        let z = seq!['0'] + t;
        assert(zero_padded(s, width) == z);
        assert forall|i: int| 0 <= i < z.len() implies is_digit(#[trigger] z[i]) by {
            if i > 0 {
                assert(z[i] == t[i - 1]);
            }
        }
        lemma_leading_zero(t);
    }
}

proof fn lemma_leading_zero(t: Seq<char>)
    ensures
        digits_value(seq!['0'] + t) == digits_value(t),
    decreases t.len(),
{
    let z = seq!['0'] + t;
    if t.len() == 0 {
        assert(z.drop_last() =~= seq![]);
        assert(digits_value(z.drop_last()) == 0);
    } else {
        assert(z.drop_last() =~= seq!['0'] + t.drop_last());
        assert(z.last() == t.last());
        lemma_leading_zero(t.drop_last());
    }
}

proof fn lemma_short(n: nat)
    requires
        n < 100_000,
    ensures
        decimal(n).len() <= 5,
{
    reveal_with_fuel(decimal, 6);
}

/// The link of a part leads back to its number: the address that a part was sent to names that
/// part in a listing.
pub proof fn the_link_of_a_part_names_it(dir: Seq<char>, part: u32)
    requires
        dir.len() > 0,
        !CharSet::Space.has(dir[0]),
        part < 100_000,
    ensures
        link_part(dir + "/"@ + chunk_name_of(part as nat)) == Some(part),
{
    reveal_strlit("/");
    let d = decimal(part as nat);
    lemma_decimal_value(part as nat);
    lemma_short(part as nat);
    lemma_padded(d, 5);
    let name = chunk_name_of(part as nat);
    let s = dir + "/"@ + name;
    assert(s[0] == dir[0]);
    assert(s.last() == name.last());
    assert(is_digit(name[4]));
    assert(name.last() == name[4]);
    lemma_untrimmed(s);
    lemma_trimmed_end_is(s, CharSet::Only('/'), s.len() as int);
    assert(s.take(s.len() as int) =~= s);
    let k = dir.len() as int;
    assert forall|j: int| k < j < s.len() implies s[j] != '/' by {
        assert(s[j] == name[j - k - 1]);
        assert(is_digit(name[j - k - 1]));
    }
    lemma_last_index_is(s, '/', k);
    assert(s.skip(k + 1) =~= name);
    assert(is_digit(name[0]));
}

proof fn lemma_run_concat(
    m: ListingModel,
    a: Seq<XmlToken<Seq<u8>, Seq<char>>>,
    b: Seq<XmlToken<Seq<u8>, Seq<char>>>,
)
    ensures
        m.run(a + b) == m.run(a).run(b),
    decreases a.len(),
{
    if a.len() == 0 {
        assert(a + b =~= b);
    } else {
        assert((a + b).drop_first() =~= a.drop_first() + b);
        lemma_run_concat(m.step(a[0]), a.drop_first(), b);
    }
}

/// A response of a listing that links to a part and gives its length puts exactly that part
/// with that length among those that are found; a listing is read response by response.
pub proof fn a_listed_part_is_found(
    m: ListingModel,
    response: Seq<u8>,
    href: Seq<u8>,
    length: Seq<u8>,
    dir: Seq<char>,
    part: u32,
    n: u64,
    rest: Seq<XmlToken<Seq<u8>, Seq<char>>>,
)
    requires
        !m.in_href,
        !m.in_len,
        local_name(response) == encode_utf8("response"@),
        local_name(href) == encode_utf8("href"@),
        local_name(length) == encode_utf8("getcontentlength"@),
        dir.len() > 0,
        !CharSet::Space.has(dir[0]),
        part < 100_000,
    ensures
        ({
            let tokens = seq![
                XmlToken::Start(response),
                XmlToken::Start(href),
                XmlToken::Text(Some(dir + "/"@ + chunk_name_of(part as nat))),
                XmlToken::End(href),
                XmlToken::Start(length),
                XmlToken::Text(Some(decimal(n as nat))),
                XmlToken::End(length),
                XmlToken::End(response),
            ];
            let after = m.run(tokens);
            &&& after.found == m.found.insert(part, n)
            &&& !after.in_href && !after.in_len
            &&& m.run(tokens + rest) == after.run(rest)
        }),
{
    reveal_strlit("response");
    reveal_strlit("href");
    reveal_strlit("getcontentlength");
    the_link_of_a_part_names_it(dir, part);
    lemma_tag_names();
    let d = decimal(n as nat);
    lemma_decimal_value(n as nat);
    assert(is_digit(d[0]));
    assert(is_digit(d[d.len() - 1]));
    lemma_untrimmed(d);
    written_numbers_read_back(n as nat, u64::MAX as nat);
    let link = dir + "/"@ + chunk_name_of(part as nat);
    let tokens = seq![
        XmlToken::Start(response),
        XmlToken::Start(href),
        XmlToken::Text(Some(link)),
        XmlToken::End(href),
        XmlToken::Start(length),
        XmlToken::Text(Some(d)),
        XmlToken::End(length),
        XmlToken::End(response),
    ];
    lemma_run_concat(m, tokens, rest);
    reveal_with_fuel(ListingModel::run, 9);
    let t1 = tokens.drop_first();
    let t2 = t1.drop_first();
    let t3 = t2.drop_first();
    let t4 = t3.drop_first();
    let t5 = t4.drop_first();
    let t6 = t5.drop_first();
    let t7 = t6.drop_first();
    assert(t7.drop_first().len() == 0);
    let m1 = m.step(tokens[0]);
    let m2 = m1.step(t1[0]);
    let m3 = m2.step(t2[0]);
    assert(m3.part == Some(part));
    let m4 = m3.step(t3[0]);
    let m5 = m4.step(t4[0]);
    let m6 = m5.step(t5[0]);
    assert(m6.len == Some(n));
    let m7 = m6.step(t6[0]);
    let m8 = m7.step(t7[0]);
    assert(m8.found == m.found.insert(part, n));
    assert(m.run(tokens) == m8);
}

/// The tags of a listing have names that differ.
proof fn lemma_tag_names()
    ensures
        encode_utf8("response"@) != encode_utf8("href"@),
        encode_utf8("response"@) != encode_utf8("getcontentlength"@),
        encode_utf8("href"@) != encode_utf8("getcontentlength"@),
{
    reveal_strlit("response");
    reveal_strlit("href");
    reveal_strlit("getcontentlength");
    vstd::utf8::encode_utf8_decode_utf8("response"@);
    vstd::utf8::encode_utf8_decode_utf8("href"@);
    vstd::utf8::encode_utf8_decode_utf8("getcontentlength"@);
    assert("response"@.len() != "href"@.len());
    assert("response"@.len() != "getcontentlength"@.len());
    assert("href"@.len() != "getcontentlength"@.len());
}

// ---- encoded paths ----------------------------------------------------------

/// Letters, digits, hyphens, underscores, dots and tildes stand in an address as they are;
/// every other byte stands there as `%` and its two digits in base sixteen, in upper case.
pub proof fn a_byte_is_kept_or_escaped(b: u8)
    ensures
        ({
            let c = b as char;
            let kept = 'a' <= c <= 'z' || 'A' <= c <= 'Z' || '0' <= c <= '9' || c == '-' || c == '_'
                || c == '.' || c == '~';
            let e = encoded_byte(b);
            let high = b as int / 16;
            let low = b as int % 16;
            &&& kept ==> e == seq![c]
            &&& !kept ==> e.len() == 3 && e[0] == '%'
            &&& !kept && high < 10 ==> e[1] as int == '0' as int + high
            &&& !kept && high >= 10 ==> e[1] as int == 'A' as int + high - 10
            &&& !kept && low < 10 ==> e[2] as int == '0' as int + low
            &&& !kept && low >= 10 ==> e[2] as int == 'A' as int + low - 10
        }),
{
    let high = b as int / 16;
    let low = b as int % 16;
    assert(0 <= high < 16 && 0 <= low < 16);
    assert(high < 10 ==> (48 + high) as char as int == 48 + high);
    assert(high >= 10 ==> (55 + high) as char as int == 55 + high);
    assert(low < 10 ==> (48 + low) as char as int == 48 + low);
    assert(low >= 10 ==> (55 + low) as char as int == 55 + low);
}

/// A link names a part only if exactly five digits stand behind its last separator.
pub proof fn only_five_digits_name_a_part(dir: Seq<char>, name: Seq<char>)
    requires
        dir.len() > 0,
        !CharSet::Space.has(dir[0]),
        all_digits(name),
        digits_value(name) <= u32::MAX,
    ensures
        link_part(dir + "/"@ + name) is Some <==> name.len() == 5,
        link_part(dir + "/"@ + name) matches Some(p) ==> p == digits_value(name),
{
    reveal_strlit("/");
    let s = dir + "/"@ + name;
    let n = name.len() as int;
    assert(s[0] == dir[0]);
    assert(s.last() == name.last());
    assert(is_digit(name[n - 1]));
    lemma_untrimmed(s);
    lemma_trimmed_end_is(s, CharSet::Only('/'), s.len() as int);
    assert(s.take(s.len() as int) =~= s);
    let k = dir.len() as int;
    assert forall|j: int| k < j < s.len() implies s[j] != '/' by {
        assert(s[j] == name[j - k - 1]);
        assert(is_digit(name[j - k - 1]));
    }
    lemma_last_index_is(s, '/', k);
    assert(s.skip(k + 1) =~= name);
    assert(is_digit(name[0]));
}

/// A response without a link to a part, or without a length, gives no part.
pub proof fn an_incomplete_response_gives_no_part(
    m: ListingModel,
    response: Seq<u8>,
    token: XmlToken<Seq<u8>, Seq<char>>,
)
    requires
        local_name(response) == encode_utf8("response"@),
    ensures
        m.part is None || m.len is None ==> m.step(XmlToken::End(response)).found == m.found,
        m.part is Some && m.len is Some ==> m.step(XmlToken::End(response)).found
            == m.found.insert(m.part->0, m.len->0),
        m.step(XmlToken::Start(response)).part is None,
        m.step(XmlToken::Start(response)).len is None,
        !(token is End) ==> m.step(token).found == m.found,
{
    lemma_tag_names();
}

} // verus!
