//! The builder that collects the options of one compiler run and turns them
//! into the compiler's command line.

use vstd::prelude::*;
use vstd::string::*;
use crate::output::{texts_of, texts_view, CargoOutput, OutputKind};

verus! {

/// The options of one compiler run.
pub struct Build {
    files: Vec<String>,
    classpath: Vec<String>,
    java_home: Option<String>,
    include_runtime: bool,
    no_jdk: bool,
    no_reflect: bool,
    no_stdlib: bool,
    warnings_into_errors: bool,
    cargo_output: CargoOutput,
}

/// What a builder holds.
pub struct BuildView {
    pub files: Seq<Seq<char>>,
    pub classpath: Seq<Seq<char>>,
    pub java_home: Option<Seq<char>>,
    pub include_runtime: bool,
    pub no_jdk: bool,
    pub no_reflect: bool,
    pub no_stdlib: bool,
    pub warnings_into_errors: bool,
    pub cargo_output: CargoOutput,
}

/// The entries of a class path, separated by colons.
pub open spec fn join_paths(paths: Seq<Seq<char>>) -> Seq<char>
    decreases paths.len(),
{
    if paths.len() == 0 {
        Seq::empty()
    } else if paths.len() == 1 {
        paths[0]
    } else {
        join_paths(paths.drop_last()) + ":"@ + paths.last()
    }
}

/// The arguments that give the class path, if it has entries.
pub open spec fn classpath_args(classpath: Seq<Seq<char>>) -> Seq<Seq<char>> {
    if classpath.len() > 0 {
        seq!["-cp"@, join_paths(classpath)]
    } else {
        Seq::empty()
    }
}

/// The arguments that give the Java home, if one is set.
pub open spec fn java_home_args(java_home: Option<Seq<char>>) -> Seq<Seq<char>> {
    match java_home {
        Some(home) => seq!["-java-home"@, home],
        None => Seq::empty(),
    }
}

/// The switch `name` if it is on, else nothing.
pub open spec fn switch(on: bool, name: Seq<char>) -> Seq<Seq<char>> {
    if on {
        seq![name]
    } else {
        Seq::empty()
    }
}

/// The arguments handed to the compiler: the class path if it has entries,
/// the Java home if one is set, the switches that are on, the source files
/// in the order in which they were added, and the output.
pub open spec fn command_line(build: BuildView, output: Seq<char>) -> Seq<Seq<char>> {
    classpath_args(build.classpath) + java_home_args(build.java_home) + switch(
        build.include_runtime,
        "-include-runtime"@,
    ) + switch(build.no_jdk, "-no-jdk"@)
        + switch(build.no_reflect, "-no-reflect"@) + switch(build.no_stdlib, "-no-stdlib"@)
        + switch(build.warnings_into_errors, "-Werror"@) + build.files + seq!["-d"@, output]
}

impl View for Build {
    type V = BuildView;

    closed spec fn view(&self) -> BuildView {
        BuildView {
            files: texts_view(self.files),
            classpath: texts_view(self.classpath),
            java_home: match self.java_home {
                Some(home) => Some(home@),
                None => None,
            },
            include_runtime: self.include_runtime,
            no_jdk: self.no_jdk,
            no_reflect: self.no_reflect,
            no_stdlib: self.no_stdlib,
            warnings_into_errors: self.warnings_into_errors,
            cargo_output: self.cargo_output,
        }
    }
}

impl Build {
    /// A builder with no files, no class path, no Java home and every switch
    /// off. `debug` says whether diagnostic printing was asked for.
    pub fn new(debug: bool) -> (build: Build)
        ensures
            build@ == (BuildView {
                files: Seq::empty(),
                classpath: Seq::empty(),
                java_home: None,
                include_runtime: false,
                no_jdk: false,
                no_reflect: false,
                no_stdlib: false,
                warnings_into_errors: false,
                cargo_output: CargoOutput {
                    metadata: true,
                    warnings: true,
                    debug,
                    output: OutputKind::Forward,
                },
            }),
    {
        let build = Build {
            files: Vec::new(),
            classpath: Vec::new(),
            java_home: None,
            include_runtime: false,
            no_jdk: false,
            no_reflect: false,
            no_stdlib: false,
            warnings_into_errors: false,
            cargo_output: CargoOutput::new(debug),
        };
        assert(texts_view(build.files) =~= Seq::<Seq<char>>::empty());
        assert(texts_view(build.classpath) =~= Seq::<Seq<char>>::empty());
        build
    }

    /// Sets whether warnings are treated as errors.
    pub fn warnings_into_errors(&mut self, warnings_into_errors: bool) -> (ret: &mut Self)
        ensures
            ret@ == (BuildView { warnings_into_errors, ..old(self)@ }),
            *final(self) == *final(ret),
    {
        self.warnings_into_errors = warnings_into_errors;
        self
    }

    /// Sets whether the JDK is left out of the class path.
    pub fn no_jdk(&mut self, no_jdk: bool) -> (ret: &mut Self)
        ensures
            ret@ == (BuildView { no_jdk, ..old(self)@ }),
            *final(self) == *final(ret),
    {
        self.no_jdk = no_jdk;
        self
    }

    /// Sets whether the reflection library is left out of the class path.
    pub fn no_reflect(&mut self, no_reflect: bool) -> (ret: &mut Self)
        ensures
            ret@ == (BuildView { no_reflect, ..old(self)@ }),
            *final(self) == *final(ret),
    {
        self.no_reflect = no_reflect;
        self
    }

    /// Sets whether the standard library is left out of the class path.
    pub fn no_stdlib(&mut self, no_stdlib: bool) -> (ret: &mut Self)
        ensures
            ret@ == (BuildView { no_stdlib, ..old(self)@ }),
            *final(self) == *final(ret),
    {
        self.no_stdlib = no_stdlib;
        self
    }

    /// Sets whether the runtime is packed into the output.
    pub fn include_runtime(&mut self, include_runtime: bool) -> (ret: &mut Self)
        ensures
            ret@ == (BuildView { include_runtime, ..old(self)@ }),
            *final(self) == *final(ret),
    {
        self.include_runtime = include_runtime;
        self
    }

    /// Sets the Java home, replacing an earlier one.
    pub fn java_home(&mut self, p: &str) -> (ret: &mut Self)
        ensures
            ret@ == (BuildView { java_home: Some(p@), ..old(self)@ }),
            *final(self) == *final(ret),
    {
        self.java_home = Some(String::from_str(p));
        self
    }

    /// Adds a source file after those added before.
    pub fn file(&mut self, p: &str) -> (ret: &mut Self)
        ensures
            ret@ == (BuildView { files: old(self)@.files.push(p@), ..old(self)@ }),
            *final(self) == *final(ret),
    {
        self.files.push(String::from_str(p));
        assert(texts_view(self.files) =~= texts_view(old(self).files).push(p@));
        self
    }

    /// Adds an entry to the class path after those added before.
    pub fn classpath(&mut self, p: &str) -> (ret: &mut Self)
        ensures
            ret@ == (BuildView { classpath: old(self)@.classpath.push(p@), ..old(self)@ }),
            *final(self) == *final(ret),
    {
        self.classpath.push(String::from_str(p));
        assert(texts_view(self.classpath) =~= texts_view(old(self).classpath).push(p@));
        self
    }

    /// Adds entries to the class path, in their order, after those added
    /// before.
    pub fn classpaths(&mut self, classpaths: &[String]) -> (ret: &mut Self)
        ensures
            ret@ == (BuildView {
                classpath: old(self)@.classpath + texts_of(classpaths@),
                ..old(self)@
            }),
            *final(self) == *final(ret),
    {
        let ghost start = self@;
        let mut i: usize = 0;
        assert(start.classpath + texts_of(classpaths@.take(0)) =~= start.classpath);
        while i < classpaths.len()
            invariant
                0 <= i <= classpaths.len(),
                self@ == (BuildView {
                    classpath: start.classpath + texts_of(classpaths@.take(i as int)),
                    ..start
                }),
            decreases classpaths.len() - i,
        {
            let ghost before = texts_view(self.classpath);
            self.classpath.push(classpaths[i].clone());
            assert(texts_view(self.classpath) =~= before.push(classpaths@[i as int]@));
            assert(texts_of(classpaths@.take(i + 1)) =~= texts_of(classpaths@.take(i as int)).push(
                classpaths@[i as int]@,
            ));
            assert(texts_view(self.classpath) =~= start.classpath + texts_of(
                classpaths@.take(i + 1),
            ));
            i += 1;
        }
        assert(classpaths@.take(classpaths.len() as int) =~= classpaths@);
        self
    }

    /// The name of the compiler's executable.
    pub fn program() -> (name: &'static str)
        ensures
            name@ == "kotlinc-jvm"@,
    {
        "kotlinc-jvm"
    }

    /// The routing of the compiler's output.
    pub fn cargo_output(&self) -> (policy: CargoOutput)
        ensures
            policy == self@.cargo_output,
    {
        self.cargo_output
    }

    /// The class path as one argument: its entries separated by colons.
    fn joined_classpath(&self) -> (joined: String)
        ensures
            joined@ == join_paths(self@.classpath),
    {
        let mut joined = String::new();
        let mut i: usize = 0;
        let ghost paths = texts_view(self.classpath);
        while i < self.classpath.len()
            invariant
                0 <= i <= self.classpath.len(),
                paths == texts_view(self.classpath),
                joined@ == join_paths(paths.take(i as int)),
            decreases self.classpath.len() - i,
        {
            let ghost next = paths.take(i + 1);
            assert(next.drop_last() =~= paths.take(i as int));
            assert(next.last() == self.classpath@[i as int]@);
            if i > 0 {
                joined.append(":");
            } else {
                assert(Seq::<char>::empty() + next.last() =~= next.last());
            }
            joined.append(self.classpath[i].as_str());
            i += 1;
        }
        assert(paths.take(self.classpath.len() as int) =~= paths);
        joined
    }

    /// Appends the arguments that give the class path.
    fn push_classpath(&self, args: &mut Vec<String>)
        ensures
            texts_view(*final(args)) == texts_view(*old(args)) + classpath_args(self@.classpath),
    {
        if self.classpath.len() > 0 {
            push_text(args, String::from_str("-cp"));
            push_text(args, self.joined_classpath());
        }
        assert(texts_view(*args) =~= texts_view(*old(args)) + classpath_args(self@.classpath));
    }

    /// Appends the arguments that give the Java home.
    fn push_java_home(&self, args: &mut Vec<String>)
        ensures
            texts_view(*final(args)) == texts_view(*old(args)) + java_home_args(self@.java_home),
    {
        match &self.java_home {
            Some(home) => {
                push_text(args, String::from_str("-java-home"));
                push_text(args, home.clone());
            },
            None => {},
        }
        assert(texts_view(*args) =~= texts_view(*old(args)) + java_home_args(self@.java_home));
    }

    /// Appends the source files.
    fn push_files(&self, args: &mut Vec<String>)
        ensures
            texts_view(*final(args)) == texts_view(*old(args)) + self@.files,
    {
        let ghost start = texts_view(*args);
        let mut i: usize = 0;
        assert(start + self@.files.take(0) =~= start);
        while i < self.files.len()
            invariant
                0 <= i <= self.files.len(),
                texts_view(*args) == start + self@.files.take(i as int),
            decreases self.files.len() - i,
        {
            push_text(args, self.files[i].clone());
            assert(self@.files.take(i + 1) =~= self@.files.take(i as int).push(
                self.files@[i as int]@,
            ));
            assert(texts_view(*args) =~= start + self@.files.take(i + 1));
            i += 1;
        }
        assert(self@.files.take(self.files.len() as int) =~= self@.files);
    }

    /// The arguments with which the compiler is run to write `output`.
    pub fn command_args(&self, output: &str) -> (args: Vec<String>)
        ensures
            texts_view(args) == command_line(self@, output@),
    {
        let mut args: Vec<String> = Vec::new();
        assert(texts_view(args) =~= Seq::<Seq<char>>::empty());
        self.push_classpath(&mut args);
        assert(texts_view(args) =~= classpath_args(self@.classpath));
        self.push_java_home(&mut args);
        push_switch(&mut args, self.include_runtime, "-include-runtime");
        push_switch(&mut args, self.no_jdk, "-no-jdk");
        push_switch(&mut args, self.no_reflect, "-no-reflect");
        push_switch(&mut args, self.no_stdlib, "-no-stdlib");
        push_switch(&mut args, self.warnings_into_errors, "-Werror");
        self.push_files(&mut args);
        let ghost before = texts_view(args);
        push_text(&mut args, String::from_str("-d"));
        push_text(&mut args, String::from_str(output));
        assert(texts_view(args) =~= before + seq!["-d"@, output@]);
        args
    }
}

/// Appends one text to a list of texts.
fn push_text(texts: &mut Vec<String>, text: String)
    ensures
        texts_view(*final(texts)) == texts_view(*old(texts)).push(text@),
{
    texts.push(text);
    assert(texts_view(*texts) =~= texts_view(*old(texts)).push(text@));
}

/// Appends the switch `name` to a list of arguments if it is on.
fn push_switch(args: &mut Vec<String>, on: bool, name: &str)
    ensures
        texts_view(*final(args)) == texts_view(*old(args)) + switch(on, name@),
{
    if on {
        push_text(args, String::from_str(name));
    }
    assert(texts_view(*args) =~= texts_view(*old(args)) + switch(on, name@));
}

} // verus!
