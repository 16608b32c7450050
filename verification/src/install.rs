//! The text of the installed service unit. Writing the files and
//! talking to the service manager is the binary's work; the unit
//! content and its escaping rules are decided and proved here.

use crate::text::is_space;
use vstd::prelude::*;

verus! {

/// `%` doubled, as the unit file syntax requires.
pub open spec fn spec_escape_systemd(s: Seq<char>) -> Seq<char>
    decreases s.len(),
{
    if s.len() == 0 {
        Seq::empty()
    } else {
        (if s[0] == '%' {
            seq!['%', '%']
        } else {
            seq![s[0]]
        }) + spec_escape_systemd(s.subrange(1, s.len() as int))
    }
}

pub fn escape_systemd_value(value: &str) -> (r: String)
    ensures
        r@ == spec_escape_systemd(value@),
{
    let n = value.unicode_len();
    let mut out = String::new();
    let mut k: usize = 0;
    while k < n
        invariant
            n == value@.len(),
            k <= n,
            out@ == spec_escape_systemd(value@.subrange(0, k as int)),
        decreases n - k,
    {
        let c = value.get_char(k);
        if c == '%' {
            out.push('%');
            out.push('%');
        } else {
            out.push(c);
        }
        proof {
            lemma_escape_systemd_snoc(value@, k as int);
            assert(out@ =~= spec_escape_systemd(value@.subrange(0, k + 1)));
        }
        k = k + 1;
    }
    proof {
        assert(value@.subrange(0, n as int) =~= value@);
    }
    out
}

proof fn lemma_escape_systemd_snoc(s: Seq<char>, k: int)
    requires
        0 <= k < s.len(),
    ensures
        spec_escape_systemd(s.subrange(0, k + 1)) == spec_escape_systemd(s.subrange(0, k)) + (if s[
            k] == '%' {
            seq!['%', '%']
        } else {
            seq![s[k]]
        }),
    decreases k,
{
    let cur = s.subrange(0, k + 1);
    let prev = s.subrange(0, k);
    if k == 0 {
        assert(cur.subrange(1, cur.len() as int).len() == 0);
        assert(spec_escape_systemd(cur.subrange(1, cur.len() as int))
            =~= Seq::<char>::empty());
        assert(spec_escape_systemd(cur) =~= (if s[0] == '%' {
            seq!['%', '%']
        } else {
            seq![s[0]]
        }));
        assert(spec_escape_systemd(prev) =~= Seq::<char>::empty());
        assert(spec_escape_systemd(cur) =~= spec_escape_systemd(prev) + (if s[0] == '%' {
            seq!['%', '%']
        } else {
            seq![s[0]]
        }));
    } else {
        let s1 = s.subrange(1, s.len() as int);
        assert(cur.subrange(1, cur.len() as int) =~= s1.subrange(0, k));
        assert(prev.subrange(1, prev.len() as int) =~= s1.subrange(0, k - 1));
        lemma_escape_systemd_snoc(s1, k - 1);
        assert(s1[k - 1] == s[k]);
        assert(cur[0] == s[0] && prev[0] == s[0]);
        assert(spec_escape_systemd(cur) =~= spec_escape_systemd(prev) + (if s[k] == '%' {
            seq!['%', '%']
        } else {
            seq![s[k]]
        }));
    }
}

/// `"` escaped with a backslash, for a quoted unit argument.
pub open spec fn spec_escape_quotes(s: Seq<char>) -> Seq<char>
    decreases s.len(),
{
    if s.len() == 0 {
        Seq::empty()
    } else {
        (if s[0] == '"' {
            seq!['\\', '"']
        } else {
            seq![s[0]]
        }) + spec_escape_quotes(s.subrange(1, s.len() as int))
    }
}

/// An argument quoted when it holds whitespace, quotes escaped.
pub open spec fn spec_quote_systemd_arg(s: Seq<char>) -> Seq<char> {
    if exists|i: int| 0 <= i < s.len() && is_space(#[trigger] s[i]) {
        seq!['"'] + spec_escape_quotes(s) + seq!['"']
    } else {
        s
    }
}

pub fn quote_systemd_arg(value: &str) -> (r: String)
    ensures
        r@ == spec_quote_systemd_arg(value@),
{
    let n = value.unicode_len();
    let mut needs_quote = false;
    let mut i: usize = 0;
    while i < n
        invariant
            n == value@.len(),
            i <= n,
            needs_quote == exists|j: int| 0 <= j < i && is_space(#[trigger] value@[j]),
        decreases n - i,
    {
        let c = value.get_char(i);
        if c == ' ' || c == '\t' || c == '\r' || c == '\n' {
            needs_quote = true;
        }
        i = i + 1;
    }
    if !needs_quote {
        return String::from_str(value);
    }
    let mut out = String::new();
    out.push('"');
    let mut k: usize = 0;
    while k < n
        invariant
            n == value@.len(),
            k <= n,
            out@ == seq!['"'] + spec_escape_quotes(value@.subrange(0, k as int)),
        decreases n - k,
    {
        let c = value.get_char(k);
        if c == '"' {
            out.push('\\');
            out.push('"');
        } else {
            out.push(c);
        }
        proof {
            lemma_escape_quotes_snoc(value@, k as int);
            assert(out@ =~= seq!['"'] + spec_escape_quotes(value@.subrange(0, k + 1)));
        }
        k = k + 1;
    }
    out.push('"');
    proof {
        assert(value@.subrange(0, n as int) =~= value@);
        assert(out@ =~= seq!['"'] + spec_escape_quotes(value@) + seq!['"']);
    }
    out
}

proof fn lemma_escape_quotes_snoc(s: Seq<char>, k: int)
    requires
        0 <= k < s.len(),
    ensures
        spec_escape_quotes(s.subrange(0, k + 1)) == spec_escape_quotes(s.subrange(0, k)) + (if s[k]
            == '"' {
            seq!['\\', '"']
        } else {
            seq![s[k]]
        }),
    decreases k,
{
    let cur = s.subrange(0, k + 1);
    let prev = s.subrange(0, k);
    if k == 0 {
        assert(cur.subrange(1, cur.len() as int).len() == 0);
        assert(spec_escape_quotes(cur.subrange(1, cur.len() as int)) =~= Seq::<char>::empty());
        assert(spec_escape_quotes(cur) =~= (if s[0] == '"' {
            seq!['\\', '"']
        } else {
            seq![s[0]]
        }));
        assert(spec_escape_quotes(prev) =~= Seq::<char>::empty());
        assert(spec_escape_quotes(cur) =~= spec_escape_quotes(prev) + (if s[0] == '"' {
            seq!['\\', '"']
        } else {
            seq![s[0]]
        }));
    } else {
        let s1 = s.subrange(1, s.len() as int);
        assert(cur.subrange(1, cur.len() as int) =~= s1.subrange(0, k));
        assert(prev.subrange(1, prev.len() as int) =~= s1.subrange(0, k - 1));
        lemma_escape_quotes_snoc(s1, k - 1);
        assert(s1[k - 1] == s[k]);
        assert(cur[0] == s[0] && prev[0] == s[0]);
        assert(spec_escape_quotes(cur) =~= spec_escape_quotes(prev) + (if s[k] == '"' {
            seq!['\\', '"']
        } else {
            seq![s[k]]
        }));
    }
}

/// The service unit text: the fixed sections around the escaped,
/// quoted executable and configuration paths.
pub open spec fn spec_service_content(exe_path: Seq<char>) -> Seq<char> {
    let exe = spec_quote_systemd_arg(spec_escape_systemd(exe_path));
    let config_path = spec_quote_systemd_arg(spec_escape_systemd("/etc/ai_gw_lite/conf.yaml"@));
    "[Unit]\nDescription=AI Gateway Lite\nAfter=network.target\n\n[Service]\nType=simple\nWorkingDirectory=/etc/ai_gw_lite\nExecStart="@
        + exe + " --config "@ + config_path
        + "\nRestart=always\nRestartSec=3\n\n[Install]\nWantedBy=multi-user.target\n"@
}

pub fn render_service_content(exe_path: &str) -> (r: String)
    ensures
        r@ == spec_service_content(exe_path@),
{
    let escaped_exe = escape_systemd_value(exe_path);
    let exe = quote_systemd_arg(escaped_exe.as_str());
    let escaped_config = escape_systemd_value("/etc/ai_gw_lite/conf.yaml");
    let config_path = quote_systemd_arg(escaped_config.as_str());
    let mut r = String::from_str(
        "[Unit]\nDescription=AI Gateway Lite\nAfter=network.target\n\n[Service]\nType=simple\nWorkingDirectory=/etc/ai_gw_lite\nExecStart=",
    );
    r.append(exe.as_str());
    r.append(" --config ");
    r.append(config_path.as_str());
    r.append("\nRestart=always\nRestartSec=3\n\n[Install]\nWantedBy=multi-user.target\n");
    r
}

} // verus!
