//! Imports: the symbols that an `import` line brings into a file, and their
//! entry into the file's tables.

use vstd::prelude::*;

use crate::error::AnalyzeError;
use crate::module::{named, FunctionID, Module, StructID, TextRange};
use crate::text::{decimal_text, radix_digits};

verus! {

/// The symbols that one `import` line brings in.
#[derive(Debug)]
pub struct ImportInfo {
    /// The functions to import: (name, id).
    pub functions: Vec<(String, FunctionID)>,
    /// The structs to import: (name, id).
    pub structs: Vec<(String, StructID)>,
}

/// All the imports of one file, and the errors found while collecting them.
#[derive(Debug)]
pub struct ModuleImports {
    pub file_id: u32,
    pub imports: Vec<(ImportInfo, TextRange)>,
    pub errors: Vec<AnalyzeError>,
}

/// Resolves and applies the `import` lines of the files.
#[derive(Debug)]
pub struct HeaderAnalyzer;

/// The name table after adding `items` one by one, and the first name that
/// was already bound (where adding stopped).
pub open spec fn import_names<V>(table: Seq<(String, V)>, items: Seq<(String, V)>) -> (Seq<(String, V)>, Option<String>)
    decreases items.len(),
{
    if items.len() == 0 {
        (table, None)
    } else if named(table, items[0].0@) is Some {
        (table, Some(items[0].0))
    } else {
        import_names(table.push(items[0]), items.drop_first())
    }
}

/// The text of a file id in an error message: its decimal digits.
pub open spec fn file_id_text(file_id: u32) -> Seq<char> {
    radix_digits(file_id as nat, 10)
}

/// The text of a file id in an error message, as `file_id_text` says.
fn file_id_message(file_id: u32) -> (s: String)
    ensures
        s@ == file_id_text(file_id),
{
    decimal_text(file_id as u64)
}

/// Adds the `items` to `table` one by one; stops at the first name already bound.
fn import_into<V: Copy>(table: &mut Vec<(String, V)>, items: &Vec<(String, V)>) -> (r: Option<String>)
    ensures
        final(table)@ == import_names(old(table)@, items@).0,
        r == import_names(old(table)@, items@).1,
{
    let ghost t0 = table@;
    let mut k: usize = 0;
    assert(items@.skip(0) =~= items@);
    while k < items.len()
        invariant
            t0 == old(table)@,
            k <= items.len(),
            import_names(t0, items@) == import_names(table@, items@.skip(k as int)),
        decreases items.len() - k,
    {
        let name = items[k].0.clone();
        let id = items[k].1;
        proof {
            assert(items@.skip(k as int)[0] == items@[k as int]);
            assert(items@.skip(k as int).drop_first() =~= items@.skip(k + 1));
        }
        if crate::module::position_named(table, &name).is_some() {
            return Some(name);
        }
        table.push((name, id));
        k += 1;
    }
    None
}

/// The function table, the struct table and the conflict error after applying
/// one import: functions first, then structs; the first name already bound
/// stops it with an error.
pub open spec fn import_result(
    fns: Seq<(String, FunctionID)>,
    sts: Seq<(String, StructID)>,
    info: ImportInfo,
    range: TextRange,
) -> (Seq<(String, FunctionID)>, Seq<(String, StructID)>, Option<AnalyzeError>) {
    let (f1, c1) = import_names(fns, info.functions@);
    match c1 {
        Some(name) => (f1, sts, Some(AnalyzeError::ImportSymbolConflict { symbol: name, range })),
        None => {
            let (s1, c2) = import_names(sts, info.structs@);
            match c2 {
                Some(name) => (f1, s1, Some(AnalyzeError::ImportSymbolConflict { symbol: name, range })),
                None => (f1, s1, None),
            }
        },
    }
}

/// The tables and the new errors after applying the imports one by one;
/// an import that conflicts stops at the conflict and adds its error.
pub open spec fn imports_result(
    fns: Seq<(String, FunctionID)>,
    sts: Seq<(String, StructID)>,
    imports: Seq<(ImportInfo, TextRange)>,
) -> (Seq<(String, FunctionID)>, Seq<(String, StructID)>, Seq<AnalyzeError>)
    decreases imports.len(),
{
    if imports.len() == 0 {
        (fns, sts, Seq::empty())
    } else {
        let (f1, s1, e) = import_result(fns, sts, imports[0].0, imports[0].1);
        let (f2, s2, es) = imports_result(f1, s1, imports.drop_first());
        match e {
            Some(err) => (f2, s2, seq![err] + es),
            None => (f2, s2, es),
        }
    }
}

proof fn lemma_imports_step(
    fns: Seq<(String, FunctionID)>,
    sts: Seq<(String, StructID)>,
    imports: Seq<(ImportInfo, TextRange)>,
    k: int,
)
    requires
        0 <= k < imports.len(),
    ensures
        ({
            let (f1, s1, e1) = imports_result(fns, sts, imports.take(k));
            let (f2, s2, e) = import_result(f1, s1, imports[k].0, imports[k].1);
            let (f3, s3, e3) = imports_result(fns, sts, imports.take(k + 1));
            &&& f3 == f2
            &&& s3 == s2
            &&& e3 == match e {
                Some(err) => e1.push(err),
                None => e1,
            }
        }),
    decreases k,
{
    let (f0, s0, e0) = import_result(fns, sts, imports[0].0, imports[0].1);
    assert(imports.take(k + 1).drop_first() =~= imports.drop_first().take(k));
    if k > 0 {
        assert(imports.take(k).drop_first() =~= imports.drop_first().take(k - 1));
        assert(imports.take(k)[0] == imports[0]);
        assert(imports.take(k + 1)[0] == imports[0]);
        lemma_imports_step(f0, s0, imports.drop_first(), k - 1);
        assert(imports.drop_first()[k - 1] == imports[k]);
        let (fa, sa, ea) = imports_result(f0, s0, imports.drop_first().take(k - 1));
        let (fb, sb, eb) = import_result(fa, sa, imports[k].0, imports[k].1);
        assert(imports_result(fns, sts, imports.take(k)) == (fa, sa, match e0 {
            Some(err) => seq![err] + ea,
            None => ea,
        }));
        let (fc, sc, ec) = imports_result(f0, s0, imports.drop_first().take(k));
        assert(fc == fb && sc == sb && ec == match eb {
            Some(err) => ea.push(err),
            None => ea,
        });
        assert(imports_result(fns, sts, imports.take(k + 1)) == (fc, sc, match e0 {
            Some(err) => seq![err] + ec,
            None => ec,
        }));
        match e0 {
            Some(err) => {
                match eb {
                    Some(err2) => assert((seq![err] + ea).push(err2) =~= seq![err] + ea.push(err2)),
                    None => {},
                }
            },
            None => {},
        }
    } else {
        assert(imports.take(0) =~= Seq::<(ImportInfo, TextRange)>::empty());
        assert(imports.drop_first().take(0) =~= Seq::<(ImportInfo, TextRange)>::empty());
        assert(imports.take(1)[0] == imports[0]);
        assert(imports_result(f0, s0, imports.drop_first().take(0)) == (f0, s0, Seq::<AnalyzeError>::empty()));
        assert(imports_result(fns, sts, imports.take(1)) == (f0, s0, match e0 {
            Some(err) => seq![err] + Seq::<AnalyzeError>::empty(),
            None => Seq::<AnalyzeError>::empty(),
        }));
        match e0 {
            Some(err) => assert(seq![err] + Seq::<AnalyzeError>::empty() =~= Seq::<AnalyzeError>::empty().push(err)),
            None => {},
        }
    }
}

impl HeaderAnalyzer {
    /// Applies one import to `module`: adds its functions, then its structs;
    /// a name that is already bound stops it with a conflict error.
    fn apply_imports_to_module(module: &mut Module, import_info: &ImportInfo, range: TextRange) -> (r: Result<(), AnalyzeError>)
        ensures
            ({
                let (f, st, e) = import_result(old(module).function_map@, old(module).struct_map@, *import_info, range);
                &&& final(module).function_map@ == f
                &&& final(module).struct_map@ == st
                &&& match e {
                    Some(err) => r == Err::<(), AnalyzeError>(err),
                    None => r is Ok,
                }
            }),
            final(module).semantic_errors@ == old(module).semantic_errors@,
            final(module).file_id == old(module).file_id,
    {
        match import_into(&mut module.function_map, &import_info.functions) {
            Some(name) => {
                return Err(AnalyzeError::ImportSymbolConflict { symbol: name, range });
            },
            None => {},
        }
        match import_into(&mut module.struct_map, &import_info.structs) {
            Some(name) => Err(AnalyzeError::ImportSymbolConflict { symbol: name, range }),
            None => Ok(()),
        }
    }

    /// Applies the imports of a file to its module: records the errors found
    /// while collecting them, then applies each import in order and records
    /// each conflict.
    pub fn apply_module_imports(module: &mut Module, module_imports: ModuleImports)
        ensures
            ({
                let (f, st, es) = imports_result(old(module).function_map@, old(module).struct_map@, module_imports.imports@);
                &&& final(module).function_map@ == f
                &&& final(module).struct_map@ == st
                &&& final(module).semantic_errors@ == old(module).semantic_errors@ + module_imports.errors@ + es
            }),
    {
        let ghost f0 = module.function_map@;
        let ghost s0 = module.struct_map@;
        let ghost e_start = module.semantic_errors@ + module_imports.errors@;
        let ModuleImports { file_id: _, imports, errors } = module_imports;
        let mut errors = errors;
        module.semantic_errors.append(&mut errors);
        let mut k: usize = 0;
        assert(imports@.take(0) =~= Seq::<(ImportInfo, TextRange)>::empty());
        while k < imports.len()
            invariant
                k <= imports.len(),
                ({
                    let (f, st, es) = imports_result(f0, s0, imports@.take(k as int));
                    &&& module.function_map@ == f
                    &&& module.struct_map@ == st
                    &&& module.semantic_errors@ == e_start + es
                }),
            decreases imports.len() - k,
        {
            proof {
                lemma_imports_step(f0, s0, imports@, k as int);
            }
            let ghost before = module.semantic_errors@;
            match Self::apply_imports_to_module(module, &imports[k].0, imports[k].1) {
                Err(e) => {
                    module.semantic_errors.push(e);
                },
                Ok(()) => {},
            }
            proof {
                let (f1, s1, e1) = imports_result(f0, s0, imports@.take(k as int));
                let (_, _, e) = import_result(f1, s1, imports@[k as int].0, imports@[k as int].1);
                match e {
                    Some(err) => assert(e_start + e1.push(err) =~= (e_start + e1).push(err)),
                    None => {},
                }
            }
            k += 1;
        }
        assert(imports@.take(imports@.len() as int) =~= imports@);
    }

    /// Collects the symbol `symbol_name` of `target_module`: a function of
    /// that name, else a struct of that name, else an error.
    pub fn collect_specific_symbol(target_module: &Module, symbol_name: &str, range: TextRange) -> (r: Result<ImportInfo, AnalyzeError>)
        ensures
            match named(target_module.function_map@, symbol_name@) {
                Some(fid) => r matches Ok(info) && info.functions@.len() == 1 && info.functions@[0].0@
                    == symbol_name@ && info.functions@[0].1 == fid && info.structs@.len() == 0,
                None => match named(target_module.struct_map@, symbol_name@) {
                    Some(sid) => r matches Ok(info) && info.structs@.len() == 1 && info.structs@[0].0@
                        == symbol_name@ && info.structs@[0].1 == sid && info.functions@.len() == 0,
                    None => r matches Err(AnalyzeError::ImportSymbolNotFound { symbol, module_name, range: rr })
                        && symbol@ == symbol_name@ && module_name@ == file_id_text(target_module.file_id) && rr
                        == range,
                },
            },
    {
        let mut import_info = ImportInfo { functions: Vec::new(), structs: Vec::new() };
        if let Some(func_id) = target_module.get_function_id_by_name(symbol_name) {
            import_info.functions.push((symbol_name.to_string(), func_id));
            return Ok(import_info);
        }
        if let Some(struct_id) = target_module.get_struct_id_by_name(symbol_name) {
            import_info.structs.push((symbol_name.to_string(), struct_id));
            return Ok(import_info);
        }
        Err(AnalyzeError::ImportSymbolNotFound {
            symbol: symbol_name.to_string(),
            module_name: file_id_message(target_module.file_id),
            range,
        })
    }

    /// Collects every function and every struct that `target_module` names.
    pub fn collect_all_symbols(target_module: &Module) -> (r: Result<ImportInfo, AnalyzeError>)
        ensures
            r matches Ok(info) && info.functions@ == target_module.function_map@ && info.structs@
                == target_module.struct_map@,
    {
        let mut import_info = ImportInfo { functions: Vec::new(), structs: Vec::new() };
        let mut i: usize = 0;
        while i < target_module.function_map.len()
            invariant
                i <= target_module.function_map.len(),
                import_info.functions@ == target_module.function_map@.take(i as int),
                import_info.structs@.len() == 0,
            decreases target_module.function_map.len() - i,
        {
            let name = target_module.function_map[i].0.clone();
            import_info.functions.push((name, target_module.function_map[i].1));
            assert(import_info.functions@ =~= target_module.function_map@.take(i + 1));
            i += 1;
        }
        let mut i: usize = 0;
        while i < target_module.struct_map.len()
            invariant
                i <= target_module.struct_map.len(),
                import_info.functions@ == target_module.function_map@,
                import_info.structs@ == target_module.struct_map@.take(i as int),
            decreases target_module.struct_map.len() - i,
        {
            let name = target_module.struct_map[i].0.clone();
            import_info.structs.push((name, target_module.struct_map[i].1));
            assert(import_info.structs@ =~= target_module.struct_map@.take(i + 1));
            i += 1;
        }
        assert(target_module.function_map@.take(target_module.function_map@.len() as int) =~= target_module.function_map@);
        assert(target_module.struct_map@.take(target_module.struct_map@.len() as int) =~= target_module.struct_map@);
        Ok(import_info)
    }

    /// Collects what an import of the file `target_file_id` brings in: the
    /// symbol `symbol_name`, or everything when none is named.
    pub fn collect_import_info(
        target_file_id: u32,
        symbol_name: Option<&str>,
        range: TextRange,
        modules: &Vec<Module>,
    ) -> (r: Result<ImportInfo, AnalyzeError>)
        ensures
            (forall|j: int| 0 <= j < modules@.len() ==> modules@[j].file_id != target_file_id) ==> (r matches Err(
                AnalyzeError::ImportPathNotFound { path, range: rr },
            ) && path@ == file_id_text(target_file_id) && rr == range),
            r is Ok ==> exists|j: int| 0 <= j < modules@.len() && modules@[j].file_id == target_file_id,
    {
        let mut j: usize = 0;
        while j < modules.len()
            invariant
                j <= modules.len(),
                forall|k: int| 0 <= k < j ==> modules@[k].file_id != target_file_id,
            decreases modules.len() - j,
        {
            if modules[j].file_id == target_file_id {
                let target_module = &modules[j];
                return match symbol_name {
                    Some(symbol) => Self::collect_specific_symbol(target_module, symbol, range),
                    None => Self::collect_all_symbols(target_module),
                };
            }
            j += 1;
        }
        Err(AnalyzeError::ImportPathNotFound { path: file_id_message(target_file_id), range })
    }
}

// ---------------------------------------------------------------------------
// Laws
// ---------------------------------------------------------------------------

/// An import never rebinds a name that the table already binds.
pub proof fn lemma_import_keeps_bound<V>(table: Seq<(String, V)>, items: Seq<(String, V)>, key: Seq<char>)
    requires
        named(table, key) is Some,
    ensures
        named(import_names(table, items).0, key) == named(table, key),
    decreases items.len(),
{
    if items.len() > 0 && named(table, items[0].0@) is None {
        crate::module::lemma_named_push(table, items[0].0, items[0].1, key);
        lemma_import_keeps_bound(table.push(items[0]), items.drop_first(), key);
    }
}

/// After an import without conflict, each imported name resolves to the id it was imported with.
pub proof fn lemma_import_binds<V>(table: Seq<(String, V)>, items: Seq<(String, V)>, i: int)
    requires
        import_names(table, items).1 is None,
        0 <= i < items.len(),
    ensures
        named(import_names(table, items).0, items[i].0@) == Some(items[i].1),
    decreases items.len(),
{
    let t1 = table.push(items[0]);
    crate::module::lemma_named_push(table, items[0].0, items[0].1, items[i].0@);
    if i == 0 {
        lemma_import_keeps_bound(t1, items.drop_first(), items[0].0@);
    } else {
        assert(items.drop_first()[i - 1] == items[i]);
        lemma_import_binds(t1, items.drop_first(), i - 1);
    }
}

} // verus!
