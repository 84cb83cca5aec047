use openblas_build::{ReadError, MakeConf};

const MAKEFILE_CONF: &str = "OSNAME=Linux
ARCH=x86_64
C_COMPILER=GCC
BINARY32=
BINARY64=1
CEXTRALIB=-L/usr/lib/gcc/x86_64-pc-linux-gnu/10.2.0 -L/usr/lib/gcc/x86_64-pc-linux-gnu/10.2.0/../../../../lib -L/lib/../lib -L/usr/lib/../lib -L/usr/lib/gcc/x86_64-pc-linux-gnu/10.2.0/../../..  -lc
F_COMPILER=GFORTRAN
FC=gfortran
BU=_
FEXTRALIB=-L/usr/lib/gcc/x86_64-pc-linux-gnu/10.2.0 -L/usr/lib/gcc/x86_64-pc-linux-gnu/10.2.0/../../../../lib -L/lib/../lib -L/usr/lib/../lib -L/usr/lib/gcc/x86_64-pc-linux-gnu/10.2.0/../../..  -lgfortran -lm -lquadmath -lm -lc
CORE=HASWELL
LIBCORE=haswell
NUM_CORES=32
HAVE_MMX=1
HAVE_SSE=1
HAVE_AVX2=1
MAKE += -j 32
SGEMM_UNROLL_M=8
SGEMM_UNROLL_N=4
";

const NOFORTRAN_CONF: &str = "OSNAME=Linux
ARCH=x86_64
C_COMPILER=GCC
BINARY32=
BINARY64=1
CEXTRALIB=-L/usr/lib/gcc/x86_64-pc-linux-gnu/10.2.0 -L/usr/lib/gcc/x86_64-pc-linux-gnu/10.2.0/../../../../lib -L/lib/../lib -L/usr/lib/../lib -L/usr/lib/gcc/x86_64-pc-linux-gnu/10.2.0/../../..  -lc
NOFORTRAN=1
NO_FBLAS=1
CORE=HASWELL
LIBCORE=haswell
NUM_CORES=32
MAKE += -j 32
";

fn names(list: &[&str]) -> Vec<String> {
    list.iter().map(|s| s.to_string()).collect()
}

#[test]
fn detail_from_makefile_conf() {
    assert!(!MAKEFILE_CONF.is_empty());
    let detail = MakeConf::new(MAKEFILE_CONF.as_bytes()).unwrap();
    assert!(!detail.no_fortran);
}

#[test]
fn detail_from_nofortran_conf() {
    assert!(!NOFORTRAN_CONF.is_empty());
    let detail = MakeConf::new(NOFORTRAN_CONF.as_bytes()).unwrap();
    assert!(detail.no_fortran);
}

#[test]
fn makefile_conf_fields() {
    let detail = MakeConf::new(MAKEFILE_CONF.as_bytes()).unwrap();
    assert_eq!(detail.os_name, "Linux");
    assert!(detail.fortran_enabled());
    assert_eq!(detail.c_extra_libs.libs, names(&["c"]));
    assert_eq!(detail.f_extra_libs.libs, names(&["c", "gfortran", "m", "quadmath"]));
}

#[test]
fn three_lines() {
    let conf = MakeConf::new(b"OSNAME=Linux\nNOFORTRAN=1\nCEXTRALIB=-lc\n").unwrap();
    assert_eq!(conf.os_name, "Linux");
    assert!(conf.no_fortran);
    assert!(!conf.fortran_enabled());
    assert_eq!(conf.c_extra_libs.libs, names(&["c"]));
    assert!(conf.c_extra_libs.search_paths.is_empty());
    assert!(conf.f_extra_libs.libs.is_empty());
    assert!(conf.f_extra_libs.search_paths.is_empty());
}

#[test]
fn fortran_is_on_by_default() {
    let conf = MakeConf::new(b"OSNAME=Linux\nCEXTRALIB=-lc\n").unwrap();
    assert!(!conf.no_fortran);
    assert!(conf.fortran_enabled());
    let empty = MakeConf::new(b"").unwrap();
    assert!(empty.fortran_enabled());
    assert_eq!(empty.os_name, "");
    assert!(MakeConf::default().fortran_enabled());
}

#[test]
fn no_fortran_counts_whatever_its_value() {
    assert!(MakeConf::new(b"NOFORTRAN=0").unwrap().no_fortran);
    assert!(MakeConf::new(b"NOFORTRAN=").unwrap().no_fortran);
    assert!(!MakeConf::new(b"NOFORTRAN").unwrap().no_fortran);
    assert!(!MakeConf::new(b"NOFORTRAN=1=2").unwrap().no_fortran);
    assert!(!MakeConf::new(b"nofortran=1").unwrap().no_fortran);
    assert!(!MakeConf::new(b" NOFORTRAN=1").unwrap().no_fortran);
}

#[test]
fn last_line_of_a_key_counts() {
    let conf = MakeConf::new(b"OSNAME=Linux\nOSNAME=Darwin\nFEXTRALIB=-la\nFEXTRALIB=-lb -lc\n").unwrap();
    assert_eq!(conf.os_name, "Darwin");
    assert_eq!(conf.f_extra_libs.libs, names(&["b", "c"]));
}

#[test]
fn lines_that_do_not_fit_are_passed_over() {
    let conf = MakeConf::new(b"\n\n# a comment\nOSNAME=Linux=x\n[section]\nOSNAME=WINNT\n\xff\xfe=1\nNOFORTRAN\xff=1\nFOO=bar\n").unwrap();
    assert_eq!(conf.os_name, "WINNT");
    assert!(!conf.no_fortran);
}

#[test]
fn line_ends_with_carriage_return() {
    let conf = MakeConf::new(b"OSNAME=Linux\r\nCEXTRALIB=-lc -lm\r\nNOFORTRAN=1").unwrap();
    assert_eq!(conf.os_name, "Linux");
    assert_eq!(conf.c_extra_libs.libs, names(&["c", "m"]));
    assert!(conf.no_fortran);
}

#[test]
fn value_is_text_of_any_script() {
    let conf = MakeConf::new("OSNAME=Линукс\n".as_bytes()).unwrap();
    assert_eq!(conf.os_name, "Линукс");
}

#[test]
fn directories_of_the_flags_are_looked_up() {
    let conf = MakeConf::new(b"CEXTRALIB=-L/usr/../usr -L/path/does/not/exist -lc\n").unwrap();
    let usr = std::path::Path::new("/usr").canonicalize().unwrap();
    assert_eq!(conf.c_extra_libs.search_paths, vec![usr.to_str().unwrap().to_string()]);
}

#[test]
fn single_line_readings() {
    assert_eq!(
        MakeConf::read_line(b"OSNAME=Linux"),
        Ok(Some(("OSNAME".to_string(), "Linux".to_string())))
    );
    assert_eq!(MakeConf::read_line(b"BINARY32="), Ok(Some(("BINARY32".to_string(), String::new()))));
    assert_eq!(MakeConf::read_line(b"=x"), Ok(Some((String::new(), "x".to_string()))));
    assert_eq!(MakeConf::read_line(b""), Ok(None));
    assert_eq!(MakeConf::read_line(b"MAKE"), Err(ReadError::MalformedConfigLine));
    assert_eq!(MakeConf::read_line(b"A=B=C"), Err(ReadError::MalformedConfigLine));
    assert_eq!(MakeConf::read_line(b"A=\xc3"), Err(ReadError::IOError));
}
