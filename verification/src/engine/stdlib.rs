//! The modules that ship with CPython, which are never PyPI packages.

use vstd::prelude::*;

use crate::text;

verus! {

/// Every public top-level module of the standard library from CPython 3.7 on,
/// including the ones later releases removed.
pub const MODULES: &'static str = "__future__ __main__ _thread abc aifc annotationlib antigravity \
    argparse array ast asynchat asyncio asyncore atexit audioop base64 bdb binascii binhex bisect \
    builtins bz2 cProfile calendar cgi cgitb chunk cmath cmd code codecs codeop collections \
    colorsys compileall compression concurrent configparser contextlib contextvars copy copyreg \
    crypt csv ctypes curses dataclasses datetime dbm decimal difflib dis distutils doctest \
    dummy_threading email encodings ensurepip enum errno faulthandler fcntl filecmp fileinput \
    fnmatch formatter fractions ftplib functools gc genericpath getopt getpass gettext glob \
    graphlib grp gzip hashlib heapq hmac html http idlelib imaplib imghdr imp importlib inspect io \
    ipaddress itertools json keyword lib2to3 linecache locale logging lzma macpath mailbox mailcap \
    marshal math mimetypes mmap modulefinder msilib msvcrt multiprocessing netrc nis nntplib nt \
    ntpath nturl2path numbers opcode operator optparse os ossaudiodev parser pathlib pdb pickle \
    pickletools pipes pkgutil platform plistlib poplib posix posixpath pprint profile pstats pty \
    pwd py_compile pyclbr pydoc pydoc_data pyexpat queue quopri random re readline reprlib \
    resource rlcompleter runpy sched secrets select selectors shelve shlex shutil signal site \
    smtpd smtplib sndhdr socket socketserver spwd sqlite3 sre_compile sre_constants sre_parse ssl \
    stat statistics string stringprep struct subprocess sunau symbol symtable sys sysconfig syslog \
    tabnanny tarfile telnetlib tempfile termios test textwrap this threading time timeit tkinter \
    token tokenize tomllib trace traceback tracemalloc tty turtle turtledemo types typing \
    unicodedata unittest urllib uu uuid venv warnings wave weakref webbrowser winreg winsound \
    wsgiref xdrlib xml xmlrpc zipapp zipfile zipimport zlib zoneinfo";

/// Whether `module` is one of the standard library's.
pub open spec fn in_stdlib(module: Seq<char>) -> bool {
    text::split_spec(MODULES@, text::eq_char(' ')).contains(module)
}

/// Does this top-level module come with the interpreter?
pub fn is_stdlib(module: &str) -> (r: bool)
    ensures
        r == in_stdlib(module@),
{
    let names = text::split(MODULES, ' ');
    text::among(names.as_slice(), module)
}

/// Every name on the list, between blanks or at either end of it, is a module of the
/// standard library.
pub proof fn every_listed_module_is_known(before: Seq<char>, name: Seq<char>, after: Seq<char>)
    requires
        MODULES@ == before + name + after,
        before.len() > 0 ==> before.last() == ' ',
        after.len() > 0 ==> after[0] == ' ',
        !name.contains(' '),
    ensures
        in_stdlib(name),
{
    let p = text::eq_char(' ');
    assert forall|i: int| 0 <= i < name.len() implies !p(#[trigger] name[i]) by {
        assert(name.contains(name[i]));
    }
    text::lemma_split_none(name, p);
    let tail = name + after;
    if after.len() > 0 {
        let rest = after.skip(1);
        assert(tail =~= name + seq![' '] + rest);
        text::lemma_split_at(name, ' ', rest, p);
    } else {
        assert(tail =~= name);
    }
    let pieces = text::split_spec(tail, p);
    assert(pieces[0] == name);
    if before.len() > 0 {
        let start = before.drop_last();
        assert(MODULES@ =~= start + seq![' '] + tail);
        text::lemma_split_at(start, ' ', tail, p);
        let first = text::split_spec(start, p);
        assert((first + pieces)[first.len() as int] == name);
        assert((first + pieces).contains(name));
    } else {
        assert(MODULES@ =~= tail);
        assert(pieces.contains(name));
    }
}

/// No module of the standard library has a blank in its name.
pub proof fn modules_are_single_words(name: Seq<char>)
    requires
        in_stdlib(name),
    ensures
        !name.contains(' '),
{
    lemma_pieces_are_bare(MODULES@, name);
}

proof fn lemma_pieces_are_bare(s: Seq<char>, name: Seq<char>)
    requires
        text::split_spec(s, text::eq_char(' ')).contains(name),
    ensures
        !name.contains(' '),
    decreases s.len(),
{
    let p = text::eq_char(' ');
    text::lemma_first_index(s, p);
    let i = text::first_index(s, p);
    let all = text::split_spec(s, p);
    let k = choose|k: int| 0 <= k < all.len() && all[k] == name;
    if i < s.len() {
        let rest = text::split_spec(s.skip(i + 1), p);
        assert(all =~= seq![s.take(i)] + rest);
        if k > 0 {
            assert(rest[k - 1] == name);
            lemma_pieces_are_bare(s.skip(i + 1), name);
        }
    }
    if k == 0 || i >= s.len() {
        assert(name.len() <= i);
        if name.contains(' ') {
            let j = choose|j: int| 0 <= j < name.len() && name[j] == ' ';
            assert(s[j] == ' ');
            assert(p(s[j]));
        }
    }
}

} // verus!
