//! Names that operators may not set in a sandbox environment.

use crate::text;
use vstd::prelude::*;

verus! {

/// Names the daemon manages itself.
pub open spec fn is_managed_name(name: Seq<char>) -> bool {
    ||| name == "HOME"@
    ||| name == "PWD"@
    ||| name == "SHELL"@
    ||| name == "TMPDIR"@
    ||| name == "TERM"@
}

/// Launcher and platform names.
pub open spec fn is_launcher_name(name: Seq<char>) -> bool {
    ||| name == "AGENT_NETWORK_PROXY"@
    ||| name == "__COMPAT_LAYER"@
    ||| name == "COMSPEC"@
    ||| name == "PSModulePath"@
    ||| name == "PATHEXT"@
}

/// Names that inject code into interpreters.
pub open spec fn is_interpreter_name(name: Seq<char>) -> bool {
    ||| name == "BASH_ENV"@
    ||| name == "ENV"@
    ||| name == "PYTHONPATH"@
    ||| name == "PYTHONSTARTUP"@
    ||| name == "PYTHONHOME"@
    ||| name == "NODE_OPTIONS"@
    ||| name == "PERL5OPT"@
    ||| name == "PERL5LIB"@
    ||| name == "RUBYOPT"@
    ||| name == "RUBYLIB"@
    ||| name == "ZDOTDIR"@
    ||| name == "IFS"@
    ||| name == "PROMPT_COMMAND"@
}

/// Names that inject behaviour into runtimes and tools.
pub open spec fn is_tool_name(name: Seq<char>) -> bool {
    ||| name == "GCONV_PATH"@
    ||| name == "HOSTALIASES"@
    ||| name == "LOCPATH"@
    ||| name == "GETCONF_DIR"@
    ||| name == "JAVA_TOOL_OPTIONS"@
    ||| name == "_JAVA_OPTIONS"@
    ||| name == "CLASSPATH"@
    ||| name == "GOFLAGS"@
    ||| name == "GIT_CONFIG_GLOBAL"@
    ||| name == "GIT_CONFIG_SYSTEM"@
    ||| name == "GIT_SSH_COMMAND"@
    ||| name == "GIT_SSH"@
    ||| name == "GIT_EXEC_PATH"@
    ||| name == "GIT_TEMPLATE_DIR"@
    ||| name == "GIT_EXTERNAL_DIFF"@
    ||| name == "GIT_ASKPASS"@
    ||| name == "GIT_EDITOR"@
    ||| name == "GIT_SEQUENCE_EDITOR"@
    ||| name == "OPENSSL_CONF"@
    ||| name == "EDITOR"@
    ||| name == "VISUAL"@
    ||| name == "PAGER"@
    ||| name == "CARGO_HOME"@
}

/// Names that redirect traffic or replace certificates.
pub open spec fn is_proxy_name(name: Seq<char>) -> bool {
    ||| name == "http_proxy"@
    ||| name == "HTTP_PROXY"@
    ||| name == "https_proxy"@
    ||| name == "HTTPS_PROXY"@
    ||| name == "ALL_PROXY"@
    ||| name == "all_proxy"@
    ||| name == "NO_PROXY"@
    ||| name == "no_proxy"@
    ||| name == "ftp_proxy"@
    ||| name == "FTP_PROXY"@
    ||| name == "SOCKS_PROXY"@
    ||| name == "socks_proxy"@
    ||| name == "CGI_HTTP_PROXY"@
    ||| name == "CURL_CA_BUNDLE"@
    ||| name == "SSL_CERT_FILE"@
    ||| name == "SSL_CERT_DIR"@
    ||| name == "REQUESTS_CA_BUNDLE"@
}

/// Names the daemon manages or refuses. `PATH` and `LANG` are deliberately
/// absent: operators may override them.
pub open spec fn is_reserved_name(name: Seq<char>) -> bool {
    ||| is_managed_name(name)
    ||| is_launcher_name(name)
    ||| is_interpreter_name(name)
    ||| is_tool_name(name)
    ||| is_proxy_name(name)
}

/// Name prefixes that are refused.
pub open spec fn has_reserved_prefix(name: Seq<char>) -> bool {
    ||| "SHBOX_"@.is_prefix_of(name)
    ||| "LD_"@.is_prefix_of(name)
    ||| "DYLD_"@.is_prefix_of(name)
    ||| "COR_"@.is_prefix_of(name)
    ||| "CORECLR_"@.is_prefix_of(name)
    ||| "DOTNET_"@.is_prefix_of(name)
    ||| "COMPLUS_"@.is_prefix_of(name)
}

fn managed_name(name: &str) -> (r: bool)
    ensures
        r == is_managed_name(name@),
{
    text::same_text(name, "HOME")
        || text::same_text(name, "PWD")
        || text::same_text(name, "SHELL")
        || text::same_text(name, "TMPDIR")
        || text::same_text(name, "TERM")
}

fn launcher_name(name: &str) -> (r: bool)
    ensures
        r == is_launcher_name(name@),
{
    text::same_text(name, "AGENT_NETWORK_PROXY")
        || text::same_text(name, "__COMPAT_LAYER")
        || text::same_text(name, "COMSPEC")
        || text::same_text(name, "PSModulePath")
        || text::same_text(name, "PATHEXT")
}

fn interpreter_name(name: &str) -> (r: bool)
    ensures
        r == is_interpreter_name(name@),
{
    text::same_text(name, "BASH_ENV")
        || text::same_text(name, "ENV")
        || text::same_text(name, "PYTHONPATH")
        || text::same_text(name, "PYTHONSTARTUP")
        || text::same_text(name, "PYTHONHOME")
        || text::same_text(name, "NODE_OPTIONS")
        || text::same_text(name, "PERL5OPT")
        || text::same_text(name, "PERL5LIB")
        || text::same_text(name, "RUBYOPT")
        || text::same_text(name, "RUBYLIB")
        || text::same_text(name, "ZDOTDIR")
        || text::same_text(name, "IFS")
        || text::same_text(name, "PROMPT_COMMAND")
}

fn tool_name(name: &str) -> (r: bool)
    ensures
        r == is_tool_name(name@),
{
    text::same_text(name, "GCONV_PATH")
        || text::same_text(name, "HOSTALIASES")
        || text::same_text(name, "LOCPATH")
        || text::same_text(name, "GETCONF_DIR")
        || text::same_text(name, "JAVA_TOOL_OPTIONS")
        || text::same_text(name, "_JAVA_OPTIONS")
        || text::same_text(name, "CLASSPATH")
        || text::same_text(name, "GOFLAGS")
        || text::same_text(name, "GIT_CONFIG_GLOBAL")
        || text::same_text(name, "GIT_CONFIG_SYSTEM")
        || text::same_text(name, "GIT_SSH_COMMAND")
        || text::same_text(name, "GIT_SSH")
        || text::same_text(name, "GIT_EXEC_PATH")
        || text::same_text(name, "GIT_TEMPLATE_DIR")
        || text::same_text(name, "GIT_EXTERNAL_DIFF")
        || text::same_text(name, "GIT_ASKPASS")
        || text::same_text(name, "GIT_EDITOR")
        || text::same_text(name, "GIT_SEQUENCE_EDITOR")
        || text::same_text(name, "OPENSSL_CONF")
        || text::same_text(name, "EDITOR")
        || text::same_text(name, "VISUAL")
        || text::same_text(name, "PAGER")
        || text::same_text(name, "CARGO_HOME")
}

fn proxy_name(name: &str) -> (r: bool)
    ensures
        r == is_proxy_name(name@),
{
    text::same_text(name, "http_proxy")
        || text::same_text(name, "HTTP_PROXY")
        || text::same_text(name, "https_proxy")
        || text::same_text(name, "HTTPS_PROXY")
        || text::same_text(name, "ALL_PROXY")
        || text::same_text(name, "all_proxy")
        || text::same_text(name, "NO_PROXY")
        || text::same_text(name, "no_proxy")
        || text::same_text(name, "ftp_proxy")
        || text::same_text(name, "FTP_PROXY")
        || text::same_text(name, "SOCKS_PROXY")
        || text::same_text(name, "socks_proxy")
        || text::same_text(name, "CGI_HTTP_PROXY")
        || text::same_text(name, "CURL_CA_BUNDLE")
        || text::same_text(name, "SSL_CERT_FILE")
        || text::same_text(name, "SSL_CERT_DIR")
        || text::same_text(name, "REQUESTS_CA_BUNDLE")
}

/// Whether a name is reserved.
pub fn reserved_name(name: &str) -> (r: bool)
    ensures
        r == is_reserved_name(name@),
{
    managed_name(name) || launcher_name(name) || interpreter_name(name) || tool_name(name) || proxy_name(name)
}

fn starts_with(name: &[char], prefix: &str) -> (r: bool)
    ensures
        r == prefix@.is_prefix_of(name@),
{
    let lead = text::chars_of(prefix);
    text::has_prefix(name, lead.as_slice())
}

/// Whether a name has a reserved prefix.
pub fn reserved_prefix(name: &str) -> (r: bool)
    ensures
        r == has_reserved_prefix(name@),
{
    let chars = text::chars_of(name);
    let s = chars.as_slice();
    starts_with(s, "SHBOX_")
        || starts_with(s, "LD_")
        || starts_with(s, "DYLD_")
        || starts_with(s, "COR_")
        || starts_with(s, "CORECLR_")
        || starts_with(s, "DOTNET_")
        || starts_with(s, "COMPLUS_")
}

/// `PATH` and `LANG` are neither reserved nor under a reserved prefix.
pub proof fn lemma_path_and_lang()
    ensures
        !is_reserved_name("PATH"@),
        !is_reserved_name("LANG"@),
        !has_reserved_prefix("PATH"@),
        !has_reserved_prefix("LANG"@),
{
    reveal_strlit("PATH");
    reveal_strlit("LANG");
    reveal_strlit("HOME");
    reveal_strlit("PWD");
    reveal_strlit("SHELL");
    reveal_strlit("TMPDIR");
    reveal_strlit("TERM");
    reveal_strlit("AGENT_NETWORK_PROXY");
    reveal_strlit("__COMPAT_LAYER");
    reveal_strlit("COMSPEC");
    reveal_strlit("PSModulePath");
    reveal_strlit("PATHEXT");
    reveal_strlit("BASH_ENV");
    reveal_strlit("ENV");
    reveal_strlit("PYTHONPATH");
    reveal_strlit("PYTHONSTARTUP");
    reveal_strlit("PYTHONHOME");
    reveal_strlit("NODE_OPTIONS");
    reveal_strlit("PERL5OPT");
    reveal_strlit("PERL5LIB");
    reveal_strlit("RUBYOPT");
    reveal_strlit("RUBYLIB");
    reveal_strlit("ZDOTDIR");
    reveal_strlit("IFS");
    reveal_strlit("PROMPT_COMMAND");
    reveal_strlit("GCONV_PATH");
    reveal_strlit("HOSTALIASES");
    reveal_strlit("LOCPATH");
    reveal_strlit("GETCONF_DIR");
    reveal_strlit("JAVA_TOOL_OPTIONS");
    reveal_strlit("_JAVA_OPTIONS");
    reveal_strlit("CLASSPATH");
    reveal_strlit("GOFLAGS");
    reveal_strlit("GIT_CONFIG_GLOBAL");
    reveal_strlit("GIT_CONFIG_SYSTEM");
    reveal_strlit("GIT_SSH_COMMAND");
    reveal_strlit("GIT_SSH");
    reveal_strlit("GIT_EXEC_PATH");
    reveal_strlit("GIT_TEMPLATE_DIR");
    reveal_strlit("GIT_EXTERNAL_DIFF");
    reveal_strlit("GIT_ASKPASS");
    reveal_strlit("GIT_EDITOR");
    reveal_strlit("GIT_SEQUENCE_EDITOR");
    reveal_strlit("OPENSSL_CONF");
    reveal_strlit("EDITOR");
    reveal_strlit("VISUAL");
    reveal_strlit("PAGER");
    reveal_strlit("CARGO_HOME");
    reveal_strlit("http_proxy");
    reveal_strlit("HTTP_PROXY");
    reveal_strlit("https_proxy");
    reveal_strlit("HTTPS_PROXY");
    reveal_strlit("ALL_PROXY");
    reveal_strlit("all_proxy");
    reveal_strlit("NO_PROXY");
    reveal_strlit("no_proxy");
    reveal_strlit("ftp_proxy");
    reveal_strlit("FTP_PROXY");
    reveal_strlit("SOCKS_PROXY");
    reveal_strlit("socks_proxy");
    reveal_strlit("CGI_HTTP_PROXY");
    reveal_strlit("CURL_CA_BUNDLE");
    reveal_strlit("SSL_CERT_FILE");
    reveal_strlit("SSL_CERT_DIR");
    reveal_strlit("REQUESTS_CA_BUNDLE");
    reveal_strlit("SHBOX_");
    reveal_strlit("LD_");
    reveal_strlit("DYLD_");
    reveal_strlit("COR_");
    reveal_strlit("CORECLR_");
    reveal_strlit("DOTNET_");
    reveal_strlit("COMPLUS_");
    assert("HOME"@[0] != "PATH"@[0]);
    assert("HOME"@[0] != "LANG"@[0]);
    assert("PWD"@.len() != 4);
    assert("SHELL"@.len() != 4);
    assert("TMPDIR"@.len() != 4);
    assert("TERM"@[0] != "PATH"@[0]);
    assert("TERM"@[0] != "LANG"@[0]);
    assert("AGENT_NETWORK_PROXY"@.len() != 4);
    assert("__COMPAT_LAYER"@.len() != 4);
    assert("COMSPEC"@.len() != 4);
    assert("PSModulePath"@.len() != 4);
    assert("PATHEXT"@.len() != 4);
    assert("BASH_ENV"@.len() != 4);
    assert("ENV"@.len() != 4);
    assert("PYTHONPATH"@.len() != 4);
    assert("PYTHONSTARTUP"@.len() != 4);
    assert("PYTHONHOME"@.len() != 4);
    assert("NODE_OPTIONS"@.len() != 4);
    assert("PERL5OPT"@.len() != 4);
    assert("PERL5LIB"@.len() != 4);
    assert("RUBYOPT"@.len() != 4);
    assert("RUBYLIB"@.len() != 4);
    assert("ZDOTDIR"@.len() != 4);
    assert("IFS"@.len() != 4);
    assert("PROMPT_COMMAND"@.len() != 4);
    assert("GCONV_PATH"@.len() != 4);
    assert("HOSTALIASES"@.len() != 4);
    assert("LOCPATH"@.len() != 4);
    assert("GETCONF_DIR"@.len() != 4);
    assert("JAVA_TOOL_OPTIONS"@.len() != 4);
    assert("_JAVA_OPTIONS"@.len() != 4);
    assert("CLASSPATH"@.len() != 4);
    assert("GOFLAGS"@.len() != 4);
    assert("GIT_CONFIG_GLOBAL"@.len() != 4);
    assert("GIT_CONFIG_SYSTEM"@.len() != 4);
    assert("GIT_SSH_COMMAND"@.len() != 4);
    assert("GIT_SSH"@.len() != 4);
    assert("GIT_EXEC_PATH"@.len() != 4);
    assert("GIT_TEMPLATE_DIR"@.len() != 4);
    assert("GIT_EXTERNAL_DIFF"@.len() != 4);
    assert("GIT_ASKPASS"@.len() != 4);
    assert("GIT_EDITOR"@.len() != 4);
    assert("GIT_SEQUENCE_EDITOR"@.len() != 4);
    assert("OPENSSL_CONF"@.len() != 4);
    assert("EDITOR"@.len() != 4);
    assert("VISUAL"@.len() != 4);
    assert("PAGER"@.len() != 4);
    assert("CARGO_HOME"@.len() != 4);
    assert("http_proxy"@.len() != 4);
    assert("HTTP_PROXY"@.len() != 4);
    assert("https_proxy"@.len() != 4);
    assert("HTTPS_PROXY"@.len() != 4);
    assert("ALL_PROXY"@.len() != 4);
    assert("all_proxy"@.len() != 4);
    assert("NO_PROXY"@.len() != 4);
    assert("no_proxy"@.len() != 4);
    assert("ftp_proxy"@.len() != 4);
    assert("FTP_PROXY"@.len() != 4);
    assert("SOCKS_PROXY"@.len() != 4);
    assert("socks_proxy"@.len() != 4);
    assert("CGI_HTTP_PROXY"@.len() != 4);
    assert("CURL_CA_BUNDLE"@.len() != 4);
    assert("SSL_CERT_FILE"@.len() != 4);
    assert("SSL_CERT_DIR"@.len() != 4);
    assert("REQUESTS_CA_BUNDLE"@.len() != 4);
    assert("SHBOX_"@.len() > 4);
    assert("LD_"@[0] != "PATH"@[0]);
    assert("LD_"@[1] != "LANG"@[1]);
    assert("DYLD_"@.len() > 4);
    assert("COR_"@[0] != "PATH"@[0]);
    assert("COR_"@[0] != "LANG"@[0]);
    assert("CORECLR_"@.len() > 4);
    assert("DOTNET_"@.len() > 4);
    assert("COMPLUS_"@.len() > 4);
}

} // verus!
