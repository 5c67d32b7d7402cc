//! Reading back what is kept of the options of the command line.

use crate::cli::{
    digits_option, each_option, option, placed_all, placed_option, saved_access_options,
    saved_file_options, saved_options, saved_session_options, saved_tunnel_options, switch, Args,
};
use crate::net::{ip_text, IpAddr};
use crate::number::digits;
use crate::paths::PathStyle;
use crate::text::{option_text, texts};
use crate::windows_service::{service_file_options, service_options};
use vstd::prelude::*;

verus! {

/// Whether an option stands alone. Any other has a value behind it.
pub open spec fn stands_alone(name: Seq<char>) -> bool {
    ||| name == "--devtunnel-enable"@
    ||| name == "--devtunnel-disable"@
    ||| name == "--devtunnel-auto-create"@
    ||| name == "--no-config"@
    ||| name == "--debug"@
    ||| name == "--verbose"@
    ||| name == "--quiet"@
    ||| name == "--strict-user"@
    ||| name == "--no-forward"@
}

/// The values that the words of a command line give to the option `name`, in their order.
pub open spec fn values_given(line: Seq<Seq<char>>, name: Seq<char>) -> Seq<Seq<char>>
    decreases line.len(),
{
    if line.len() == 0 {
        Seq::empty()
    } else if stands_alone(line[0]) {
        values_given(line.skip(1), name)
    } else if line.len() == 1 {
        Seq::empty()
    } else if line[0] == name {
        seq![line[1]] + values_given(line.skip(2), name)
    } else {
        values_given(line.skip(2), name)
    }
}

/// Whether the words of a command line switch `name` on.
pub open spec fn switched_on(line: Seq<Seq<char>>, name: Seq<char>) -> bool
    decreases line.len(),
{
    if line.len() == 0 {
        false
    } else if stands_alone(line[0]) {
        line[0] == name || switched_on(line.skip(1), name)
    } else if line.len() == 1 {
        false
    } else {
        switched_on(line.skip(2), name)
    }
}

/// Whether every option among the words of a command line has its value.
pub open spec fn complete(line: Seq<Seq<char>>) -> bool
    decreases line.len(),
{
    if line.len() == 0 {
        true
    } else if stands_alone(line[0]) {
        complete(line.skip(1))
    } else if line.len() == 1 {
        false
    } else {
        complete(line.skip(2))
    }
}

/// A list of the value that there is, if there is one.
pub open spec fn listed(value: Option<Seq<char>>) -> Seq<Seq<char>> {
    match value {
        Some(v) => seq![v],
        None => Seq::empty(),
    }
}

/// The digits of a port.
pub open spec fn port_text(n: Option<u16>) -> Option<Seq<char>> {
    match n {
        Some(k) => Some(digits(k as nat)),
        None => None,
    }
}

/// The digits of a limit.
pub open spec fn limit_text(n: Option<u32>) -> Option<Seq<char>> {
    match n {
        Some(k) => Some(digits(k as nat)),
        None => None,
    }
}

/// The text of an address.
pub open spec fn bind_text(ip: Option<IpAddr>) -> Option<Seq<char>> {
    match ip {
        Some(a) => Some(ip_text(a)),
        None => None,
    }
}

/// Words behind complete ones are read on their own.
proof fn read_on(line: Seq<Seq<char>>, more: Seq<Seq<char>>, name: Seq<char>)
    requires
        complete(line),
    ensures
        values_given(line + more, name) == values_given(line, name) + values_given(more, name),
        switched_on(line + more, name) == (switched_on(line, name) || switched_on(more, name)),
        complete(line + more) == complete(more),
    decreases line.len(),
{
    let all = line + more;
    if line.len() == 0 {
        assert(all =~= more);
        assert(values_given(line, name) + values_given(more, name) =~= values_given(more, name));
    } else if stands_alone(line[0]) {
        assert(all.skip(1) =~= line.skip(1) + more);
        read_on(line.skip(1), more, name);
    } else {
        assert(all.skip(2) =~= line.skip(2) + more);
        read_on(line.skip(2), more, name);
        if line[0] == name {
            assert(values_given(all, name) =~= values_given(line, name) + values_given(
                more,
                name,
            ));
        }
    }
}

proof fn read_switch(line: Seq<Seq<char>>, name: Seq<char>, on: bool)
    requires
        complete(line),
        stands_alone(name),
    ensures
        complete(line + switch(name, on)),
        forall|q: Seq<char>| #[trigger]
            values_given(line + switch(name, on), q) == values_given(line, q),
        forall|q: Seq<char>| #[trigger]
            switched_on(line + switch(name, on), q) == (switched_on(line, q) || (on && q == name)),
{
    let more = switch(name, on);
    assert(on ==> more.skip(1) =~= Seq::<Seq<char>>::empty());
    assert forall|q: Seq<char>| true implies #[trigger] values_given(line + more, q)
        == values_given(line, q) && switched_on(line + more, q) == (switched_on(line, q) || (on
        && q == name)) by {
        read_on(line, more, q);
        assert(values_given(Seq::<Seq<char>>::empty(), q) =~= Seq::<Seq<char>>::empty());
        assert(values_given(more, q) =~= Seq::<Seq<char>>::empty());
        assert(values_given(line, q) + values_given(more, q) =~= values_given(line, q));
        assert(!switched_on(Seq::<Seq<char>>::empty(), q));
        assert(switched_on(more, q) == (on && q == name));
    }
    assert forall|q: Seq<char>| true implies #[trigger] switched_on(line + more, q) == (
    switched_on(line, q) || (on && q == name)) by {
        assert(values_given(line + more, q) == values_given(line, q));
    }
    read_on(line, more, name);
    assert(complete(Seq::<Seq<char>>::empty()));
}

proof fn read_pair(name: Seq<char>, value: Seq<char>, q: Seq<char>)
    requires
        !stands_alone(name),
    ensures
        complete(seq![name, value]),
        values_given(seq![name, value], q) == (if q == name {
            seq![value]
        } else {
            Seq::empty()
        }),
        !switched_on(seq![name, value], q),
{
    let pair = seq![name, value];
    assert(pair.skip(2) =~= Seq::<Seq<char>>::empty());
    assert(values_given(pair.skip(2), q) =~= Seq::<Seq<char>>::empty());
    assert(seq![value] + Seq::<Seq<char>>::empty() =~= seq![value]);
    assert(!switched_on(pair.skip(2), q));
    assert(complete(pair.skip(2)));
}

proof fn read_list(name: Seq<char>, values: Seq<Seq<char>>, q: Seq<char>)
    requires
        !stands_alone(name),
    ensures
        complete(each_option(name, values)),
        values_given(each_option(name, values), q) == (if q == name {
            values
        } else {
            Seq::empty()
        }),
        !switched_on(each_option(name, values), q),
    decreases values.len(),
{
    if values.len() == 0 {
        assert(values =~= Seq::<Seq<char>>::empty());
    } else {
        let front = each_option(name, values.drop_last());
        let pair = seq![name, values.last()];
        read_list(name, values.drop_last(), q);
        read_pair(name, values.last(), q);
        read_on(front, pair, q);
        assert(values =~= values.drop_last() + seq![values.last()]);
        assert(values_given(each_option(name, values), q) =~= (if q == name {
            values
        } else {
            Seq::empty()
        }));
    }
}

proof fn read_each(line: Seq<Seq<char>>, name: Seq<char>, values: Seq<Seq<char>>)
    requires
        complete(line),
        !stands_alone(name),
    ensures
        complete(line + each_option(name, values)),
        forall|q: Seq<char>| #[trigger]
            values_given(line + each_option(name, values), q) == (if q == name {
                values_given(line, q) + values
            } else {
                values_given(line, q)
            }),
        forall|q: Seq<char>| #[trigger]
            switched_on(line + each_option(name, values), q) == switched_on(line, q),
{
    let more = each_option(name, values);
    assert forall|q: Seq<char>| true implies #[trigger] values_given(line + more, q) == (if q
        == name {
        values_given(line, q) + values
    } else {
        values_given(line, q)
    }) by {
        read_on(line, more, q);
        read_list(name, values, q);
        assert(values_given(line, q) + Seq::<Seq<char>>::empty() =~= values_given(line, q));
    }
    assert forall|q: Seq<char>| true implies #[trigger] switched_on(line + more, q)
        == switched_on(line, q) by {
        read_on(line, more, q);
        read_list(name, values, q);
    }
    read_on(line, more, name);
    read_list(name, values, name);
}

proof fn read_option(line: Seq<Seq<char>>, name: Seq<char>, value: Option<Seq<char>>)
    requires
        complete(line),
        !stands_alone(name),
    ensures
        complete(line + option(name, value)),
        forall|q: Seq<char>| #[trigger]
            values_given(line + option(name, value), q) == (if q == name {
                values_given(line, q) + listed(value)
            } else {
                values_given(line, q)
            }),
        forall|q: Seq<char>| #[trigger]
            switched_on(line + option(name, value), q) == switched_on(line, q),
{
    let all = listed(value);
    if let Some(v) = value {
        assert(all.drop_last() =~= Seq::<Seq<char>>::empty());
        assert(each_option(name, all.drop_last()) =~= Seq::<Seq<char>>::empty());
        assert(each_option(name, all) =~= option(name, value));
    } else {
        assert(each_option(name, all) =~= option(name, value));
    }
    read_each(line, name, all);
}

/// A number that tells the options of the command line apart.
spec fn mark(name: Seq<char>) -> int {
    name.len() * 1000 + (if name.len() == 19 {
        name[12] as int
    } else {
        name[2] as int
    })
}

/// The options of the command line have different marks.
proof fn options_differ()
    ensures
        mark("--devtunnel-enable"@) == 18100,
        mark("--devtunnel-disable"@) == 19100,
        mark("--devtunnel-id"@) == 14100,
        mark("--devtunnel-label"@) == 17100,
        mark("--devtunnel-bin"@) == 15100,
        mark("--devtunnel-auto-create"@) == 23100,
        mark("--devtunnel-timeout"@) == 19116,
        mark("--port"@) == 6112,
        mark("--host-key"@) == 10104,
        mark("--config"@) == 8099,
        mark("--no-config"@) == 11110,
        mark("--log-file"@) == 10108,
        mark("--debug"@) == 7100,
        mark("--verbose"@) == 9118,
        mark("--quiet"@) == 7113,
        mark("--bind"@) == 6098,
        mark("--host-key-passphrase"@) == 21104,
        mark("--password"@) == 10112,
        mark("--authorized-keys"@) == 17097,
        mark("--pubkey"@) == 8112,
        mark("--shell"@) == 7115,
        mark("--sftp-root"@) == 11115,
        mark("--strict-user"@) == 13115,
        mark("--allow-user"@) == 12097,
        mark("--no-forward"@) == 12110,
        mark("--login-grace"@) == 13108,
        mark("--max-startups"@) == 14109,
{
    reveal_strlit("--devtunnel-enable");
    reveal_strlit("--devtunnel-disable");
    reveal_strlit("--devtunnel-id");
    reveal_strlit("--devtunnel-label");
    reveal_strlit("--devtunnel-bin");
    reveal_strlit("--devtunnel-auto-create");
    reveal_strlit("--devtunnel-timeout");
    reveal_strlit("--port");
    reveal_strlit("--host-key");
    reveal_strlit("--config");
    reveal_strlit("--no-config");
    reveal_strlit("--log-file");
    reveal_strlit("--debug");
    reveal_strlit("--verbose");
    reveal_strlit("--quiet");
    reveal_strlit("--bind");
    reveal_strlit("--host-key-passphrase");
    reveal_strlit("--password");
    reveal_strlit("--authorized-keys");
    reveal_strlit("--pubkey");
    reveal_strlit("--shell");
    reveal_strlit("--sftp-root");
    reveal_strlit("--strict-user");
    reveal_strlit("--allow-user");
    reveal_strlit("--no-forward");
    reveal_strlit("--login-grace");
    reveal_strlit("--max-startups");
}

/// Whether `q` is one of the options that `saved_tunnel_options` keeps.
spec fn tunnel_option(q: Seq<char>) -> bool {
    ||| q == "--devtunnel-enable"@
    ||| q == "--devtunnel-disable"@
    ||| q == "--devtunnel-id"@
    ||| q == "--devtunnel-label"@
    ||| q == "--devtunnel-bin"@
    ||| q == "--devtunnel-auto-create"@
    ||| q == "--devtunnel-timeout"@
}

proof fn read_tunnel_options(style: PathStyle, line: Seq<Seq<char>>, a: Args, cwd: Seq<char>)
    requires
        complete(line),
    ensures
        ({
            let all = saved_tunnel_options(style, line, a, cwd);
            &&& complete(all)
            &&& forall|q: Seq<char>|
                !tunnel_option(q) ==> #[trigger] values_given(all, q) == values_given(line, q)
            &&& forall|q: Seq<char>|
                !tunnel_option(q) ==> #[trigger] switched_on(all, q) == switched_on(line, q)
            &&& switched_on(all, "--devtunnel-enable"@) == (switched_on(line, "--devtunnel-enable"@) || a.devtunnel_enable)
            &&& switched_on(all, "--devtunnel-disable"@) == (switched_on(line, "--devtunnel-disable"@) || a.devtunnel_disable)
            &&& values_given(all, "--devtunnel-id"@) == values_given(line, "--devtunnel-id"@) + listed(option_text(a.devtunnel_id))
            &&& values_given(all, "--devtunnel-label"@) == values_given(line, "--devtunnel-label"@) + texts(a.devtunnel_label@)
            &&& values_given(all, "--devtunnel-bin"@) == values_given(line, "--devtunnel-bin"@) + listed(placed_option(style, cwd, a.devtunnel_bin))
            &&& switched_on(all, "--devtunnel-auto-create"@) == (switched_on(line, "--devtunnel-auto-create"@) || a.devtunnel_auto_create)
            &&& values_given(all, "--devtunnel-timeout"@) == values_given(line, "--devtunnel-timeout"@) + listed(option_text(a.devtunnel_timeout))
        }),
{
    options_differ();
    read_switch(line, "--devtunnel-enable"@, a.devtunnel_enable);
    let line1 = line + switch("--devtunnel-enable"@, a.devtunnel_enable);
    read_switch(line1, "--devtunnel-disable"@, a.devtunnel_disable);
    let line2 = line1 + switch("--devtunnel-disable"@, a.devtunnel_disable);
    read_option(line2, "--devtunnel-id"@, option_text(a.devtunnel_id));
    let line3 = line2 + option("--devtunnel-id"@, option_text(a.devtunnel_id));
    read_each(line3, "--devtunnel-label"@, texts(a.devtunnel_label@));
    let line4 = line3 + each_option("--devtunnel-label"@, texts(a.devtunnel_label@));
    read_option(line4, "--devtunnel-bin"@, placed_option(style, cwd, a.devtunnel_bin));
    let line5 = line4 + option("--devtunnel-bin"@, placed_option(style, cwd, a.devtunnel_bin));
    read_switch(line5, "--devtunnel-auto-create"@, a.devtunnel_auto_create);
    let line6 = line5 + switch("--devtunnel-auto-create"@, a.devtunnel_auto_create);
    read_option(line6, "--devtunnel-timeout"@, option_text(a.devtunnel_timeout));
    let line7 = line6 + option("--devtunnel-timeout"@, option_text(a.devtunnel_timeout));
    assert(line7 == saved_tunnel_options(style, line, a, cwd));
}

/// Whether `q` is one of the options that `saved_file_options` keeps.
spec fn file_option(q: Seq<char>) -> bool {
    ||| q == "--port"@
    ||| q == "--host-key"@
    ||| q == "--config"@
    ||| q == "--no-config"@
    ||| q == "--log-file"@
    ||| q == "--debug"@
    ||| q == "--verbose"@
    ||| q == "--quiet"@
}

proof fn read_file_options(style: PathStyle, line: Seq<Seq<char>>, a: Args, cwd: Seq<char>)
    requires
        complete(line),
    ensures
        ({
            let all = saved_file_options(style, line, a, cwd);
            &&& complete(all)
            &&& forall|q: Seq<char>|
                !file_option(q) ==> #[trigger] values_given(all, q) == values_given(line, q)
            &&& forall|q: Seq<char>|
                !file_option(q) ==> #[trigger] switched_on(all, q) == switched_on(line, q)
            &&& values_given(all, "--port"@) == values_given(line, "--port"@) + listed(port_text(a.port))
            &&& values_given(all, "--host-key"@) == values_given(line, "--host-key"@) + placed_all(style, cwd, texts(a.host_key@))
            &&& values_given(all, "--config"@) == values_given(line, "--config"@) + listed(placed_option(style, cwd, a.config))
            &&& switched_on(all, "--no-config"@) == (switched_on(line, "--no-config"@) || a.no_config)
            &&& values_given(all, "--log-file"@) == values_given(line, "--log-file"@) + listed(placed_option(style, cwd, a.log_file))
            &&& switched_on(all, "--debug"@) == (switched_on(line, "--debug"@) || a.debug)
            &&& switched_on(all, "--verbose"@) == (switched_on(line, "--verbose"@) || a.verbose)
            &&& switched_on(all, "--quiet"@) == (switched_on(line, "--quiet"@) || a.quiet)
        }),
{
    options_differ();
    read_option(line, "--port"@, port_text(a.port));
    let line1 = line + option("--port"@, port_text(a.port));
    read_each(line1, "--host-key"@, placed_all(style, cwd, texts(a.host_key@)));
    let line2 = line1 + each_option("--host-key"@, placed_all(style, cwd, texts(a.host_key@)));
    read_option(line2, "--config"@, placed_option(style, cwd, a.config));
    let line3 = line2 + option("--config"@, placed_option(style, cwd, a.config));
    read_switch(line3, "--no-config"@, a.no_config);
    let line4 = line3 + switch("--no-config"@, a.no_config);
    read_option(line4, "--log-file"@, placed_option(style, cwd, a.log_file));
    let line5 = line4 + option("--log-file"@, placed_option(style, cwd, a.log_file));
    read_switch(line5, "--debug"@, a.debug);
    let line6 = line5 + switch("--debug"@, a.debug);
    read_switch(line6, "--verbose"@, a.verbose);
    let line7 = line6 + switch("--verbose"@, a.verbose);
    read_switch(line7, "--quiet"@, a.quiet);
    let line8 = line7 + switch("--quiet"@, a.quiet);
    assert(line8 == saved_file_options(style, line, a, cwd));
}

/// Whether `q` is one of the options that `saved_access_options` keeps.
spec fn access_option(q: Seq<char>) -> bool {
    ||| q == "--bind"@
    ||| q == "--host-key-passphrase"@
    ||| q == "--password"@
    ||| q == "--authorized-keys"@
    ||| q == "--pubkey"@
}

proof fn read_access_options(style: PathStyle, line: Seq<Seq<char>>, a: Args, cwd: Seq<char>)
    requires
        complete(line),
    ensures
        ({
            let all = saved_access_options(style, line, a, cwd);
            &&& complete(all)
            &&& forall|q: Seq<char>|
                !access_option(q) ==> #[trigger] values_given(all, q) == values_given(line, q)
            &&& forall|q: Seq<char>|
                !access_option(q) ==> #[trigger] switched_on(all, q) == switched_on(line, q)
            &&& values_given(all, "--bind"@) == values_given(line, "--bind"@) + listed(bind_text(a.bind))
            &&& values_given(all, "--host-key-passphrase"@) == values_given(line, "--host-key-passphrase"@) + listed(option_text(a.host_key_passphrase))
            &&& values_given(all, "--password"@) == values_given(line, "--password"@) + listed(option_text(a.password))
            &&& values_given(all, "--authorized-keys"@) == values_given(line, "--authorized-keys"@) + placed_all(style, cwd, texts(a.authorized_keys@))
            &&& values_given(all, "--pubkey"@) == values_given(line, "--pubkey"@) + texts(a.pubkey@)
        }),
{
    options_differ();
    read_option(line, "--bind"@, bind_text(a.bind));
    let line1 = line + option("--bind"@, bind_text(a.bind));
    read_option(line1, "--host-key-passphrase"@, option_text(a.host_key_passphrase));
    let line2 = line1 + option("--host-key-passphrase"@, option_text(a.host_key_passphrase));
    read_option(line2, "--password"@, option_text(a.password));
    let line3 = line2 + option("--password"@, option_text(a.password));
    read_each(line3, "--authorized-keys"@, placed_all(style, cwd, texts(a.authorized_keys@)));
    let line4 = line3 + each_option("--authorized-keys"@, placed_all(style, cwd, texts(a.authorized_keys@)));
    read_each(line4, "--pubkey"@, texts(a.pubkey@));
    let line5 = line4 + each_option("--pubkey"@, texts(a.pubkey@));
    assert(line5 == saved_access_options(style, line, a, cwd));
}

/// Whether `q` is one of the options that `saved_session_options` keeps.
spec fn session_option(q: Seq<char>) -> bool {
    ||| q == "--shell"@
    ||| q == "--sftp-root"@
    ||| q == "--strict-user"@
    ||| q == "--allow-user"@
    ||| q == "--no-forward"@
    ||| q == "--login-grace"@
    ||| q == "--max-startups"@
}

proof fn read_session_options(style: PathStyle, line: Seq<Seq<char>>, a: Args, cwd: Seq<char>)
    requires
        complete(line),
    ensures
        ({
            let all = saved_session_options(style, line, a, cwd);
            &&& complete(all)
            &&& forall|q: Seq<char>|
                !session_option(q) ==> #[trigger] values_given(all, q) == values_given(line, q)
            &&& forall|q: Seq<char>|
                !session_option(q) ==> #[trigger] switched_on(all, q) == switched_on(line, q)
            &&& values_given(all, "--shell"@) == values_given(line, "--shell"@) + listed(option_text(a.shell))
            &&& values_given(all, "--sftp-root"@) == values_given(line, "--sftp-root"@) + listed(placed_option(style, cwd, a.sftp_root))
            &&& switched_on(all, "--strict-user"@) == (switched_on(line, "--strict-user"@) || a.strict_user)
            &&& values_given(all, "--allow-user"@) == values_given(line, "--allow-user"@) + texts(a.allow_user@)
            &&& switched_on(all, "--no-forward"@) == (switched_on(line, "--no-forward"@) || a.no_forward)
            &&& values_given(all, "--login-grace"@) == values_given(line, "--login-grace"@) + listed(digits_option(a.login_grace))
            &&& values_given(all, "--max-startups"@) == values_given(line, "--max-startups"@) + listed(limit_text(a.max_startups))
        }),
{
    options_differ();
    read_option(line, "--shell"@, option_text(a.shell));
    let line1 = line + option("--shell"@, option_text(a.shell));
    read_option(line1, "--sftp-root"@, placed_option(style, cwd, a.sftp_root));
    let line2 = line1 + option("--sftp-root"@, placed_option(style, cwd, a.sftp_root));
    read_switch(line2, "--strict-user"@, a.strict_user);
    let line3 = line2 + switch("--strict-user"@, a.strict_user);
    read_each(line3, "--allow-user"@, texts(a.allow_user@));
    let line4 = line3 + each_option("--allow-user"@, texts(a.allow_user@));
    read_switch(line4, "--no-forward"@, a.no_forward);
    let line5 = line4 + switch("--no-forward"@, a.no_forward);
    read_option(line5, "--login-grace"@, digits_option(a.login_grace));
    let line6 = line5 + option("--login-grace"@, digits_option(a.login_grace));
    read_option(line6, "--max-startups"@, limit_text(a.max_startups));
    let line7 = line6 + option("--max-startups"@, limit_text(a.max_startups));
    assert(line7 == saved_session_options(style, line, a, cwd));
}

/// What is kept of the options gives them back when it is read: every switch, every value,
/// and every path as seen from the directory `cwd`.
pub proof fn kept_options_are_read_back(style: PathStyle, a: Args, cwd: Seq<char>)
    ensures
        ({
            let line = saved_options(style, a, cwd);
            &&& complete(line)
            &&& switched_on(line, "--devtunnel-enable"@) == a.devtunnel_enable
            &&& switched_on(line, "--devtunnel-disable"@) == a.devtunnel_disable
            &&& values_given(line, "--devtunnel-id"@) == listed(option_text(a.devtunnel_id))
            &&& values_given(line, "--devtunnel-label"@) == texts(a.devtunnel_label@)
            &&& values_given(line, "--devtunnel-bin"@) == listed(placed_option(style, cwd, a.devtunnel_bin))
            &&& switched_on(line, "--devtunnel-auto-create"@) == a.devtunnel_auto_create
            &&& values_given(line, "--devtunnel-timeout"@) == listed(option_text(a.devtunnel_timeout))
            &&& values_given(line, "--port"@) == listed(port_text(a.port))
            &&& values_given(line, "--host-key"@) == placed_all(style, cwd, texts(a.host_key@))
            &&& values_given(line, "--config"@) == listed(placed_option(style, cwd, a.config))
            &&& switched_on(line, "--no-config"@) == a.no_config
            &&& values_given(line, "--log-file"@) == listed(placed_option(style, cwd, a.log_file))
            &&& switched_on(line, "--debug"@) == a.debug
            &&& switched_on(line, "--verbose"@) == a.verbose
            &&& switched_on(line, "--quiet"@) == a.quiet
            &&& values_given(line, "--bind"@) == listed(bind_text(a.bind))
            &&& values_given(line, "--host-key-passphrase"@) == listed(option_text(a.host_key_passphrase))
            &&& values_given(line, "--password"@) == listed(option_text(a.password))
            &&& values_given(line, "--authorized-keys"@) == placed_all(style, cwd, texts(a.authorized_keys@))
            &&& values_given(line, "--pubkey"@) == texts(a.pubkey@)
            &&& values_given(line, "--shell"@) == listed(option_text(a.shell))
            &&& values_given(line, "--sftp-root"@) == listed(placed_option(style, cwd, a.sftp_root))
            &&& switched_on(line, "--strict-user"@) == a.strict_user
            &&& values_given(line, "--allow-user"@) == texts(a.allow_user@)
            &&& switched_on(line, "--no-forward"@) == a.no_forward
            &&& values_given(line, "--login-grace"@) == listed(digits_option(a.login_grace))
            &&& values_given(line, "--max-startups"@) == listed(limit_text(a.max_startups))
        }),
{
    options_differ();
    let tunnel = saved_tunnel_options(style, Seq::empty(), a, cwd);
    let files = saved_file_options(style, tunnel, a, cwd);
    let access = saved_access_options(style, files, a, cwd);
    read_tunnel_options(style, Seq::empty(), a, cwd);
    read_file_options(style, tunnel, a, cwd);
    read_access_options(style, files, a, cwd);
    read_session_options(style, access, a, cwd);
    assert forall|x: Seq<Seq<char>>| #[trigger] (Seq::<Seq<char>>::empty() + x) == x by {
        assert(Seq::<Seq<char>>::empty() + x =~= x);
    }
}

/// What is kept of one option is its value, where it has one.
pub proof fn what_is_kept(value: Seq<char>, port: u16, limit: u32, ip: IpAddr)
    ensures
        listed(Some(value)) == seq![value],
        listed(None) == Seq::<Seq<char>>::empty(),
        port_text(Some(port)) == Some(digits(port as nat)),
        port_text(None) is None,
        limit_text(Some(limit)) == Some(digits(limit as nat)),
        limit_text(None) is None,
        bind_text(Some(ip)) == Some(ip_text(ip)),
        bind_text(None) is None,
{
}

/// The options that a service is started with give back what was given when they are read: every
/// switch, every value, and every path as seen from the directory `cwd`. What tells the program
/// that it is a service stands behind them.
pub proof fn service_options_are_read_back(style: PathStyle, a: Args, cwd: Seq<char>)
    ensures
        service_options(style, a, cwd).len() > 0,
        service_options(style, a, cwd).last() == "--windows-service"@,
        ({
            let line = service_options(style, a, cwd).drop_last();
            &&& complete(line)
            &&& values_given(line, "--port"@) == listed(port_text(a.port))
            &&& values_given(line, "--host-key"@) == placed_all(style, cwd, texts(a.host_key@))
            &&& values_given(line, "--config"@) == listed(placed_option(style, cwd, a.config))
            &&& values_given(line, "--log-file"@) == listed(placed_option(style, cwd, a.log_file))
            &&& switched_on(line, "--debug"@) == a.debug
            &&& switched_on(line, "--verbose"@) == a.verbose
            &&& switched_on(line, "--quiet"@) == a.quiet
            &&& values_given(line, "--bind"@) == listed(bind_text(a.bind))
            &&& values_given(line, "--host-key-passphrase"@) == listed(option_text(a.host_key_passphrase))
            &&& values_given(line, "--password"@) == listed(option_text(a.password))
            &&& values_given(line, "--authorized-keys"@) == placed_all(style, cwd, texts(a.authorized_keys@))
            &&& values_given(line, "--pubkey"@) == texts(a.pubkey@)
            &&& values_given(line, "--shell"@) == listed(option_text(a.shell))
            &&& values_given(line, "--sftp-root"@) == listed(placed_option(style, cwd, a.sftp_root))
            &&& switched_on(line, "--strict-user"@) == a.strict_user
            &&& values_given(line, "--allow-user"@) == texts(a.allow_user@)
            &&& switched_on(line, "--no-forward"@) == a.no_forward
            &&& values_given(line, "--login-grace"@) == listed(digits_option(a.login_grace))
            &&& values_given(line, "--max-startups"@) == listed(limit_text(a.max_startups))
        }),
{
    options_differ();
    let none = Seq::<Seq<char>>::empty();
    read_option(none, "--port"@, port_text(a.port));
    let line1 = none + option("--port"@, port_text(a.port));
    read_each(line1, "--host-key"@, placed_all(style, cwd, texts(a.host_key@)));
    let line2 = line1 + each_option("--host-key"@, placed_all(style, cwd, texts(a.host_key@)));
    read_option(line2, "--config"@, placed_option(style, cwd, a.config));
    let line3 = line2 + option("--config"@, placed_option(style, cwd, a.config));
    read_option(line3, "--log-file"@, placed_option(style, cwd, a.log_file));
    let line4 = line3 + option("--log-file"@, placed_option(style, cwd, a.log_file));
    read_switch(line4, "--debug"@, a.debug);
    let line5 = line4 + switch("--debug"@, a.debug);
    read_switch(line5, "--verbose"@, a.verbose);
    let line6 = line5 + switch("--verbose"@, a.verbose);
    read_switch(line6, "--quiet"@, a.quiet);
    let files = line6 + switch("--quiet"@, a.quiet);
    assert(files == service_file_options(style, a, cwd));
    let access = saved_access_options(style, files, a, cwd);
    read_access_options(style, files, a, cwd);
    read_session_options(style, access, a, cwd);
    let all = saved_session_options(style, access, a, cwd);
    assert(service_options(style, a, cwd).drop_last() =~= all);
    assert forall|x: Seq<Seq<char>>| #[trigger] (Seq::<Seq<char>>::empty() + x) == x by {
        assert(Seq::<Seq<char>>::empty() + x =~= x);
    }
}

} // verus!
