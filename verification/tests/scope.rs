use scope_permissions::common::error::ErrorKind;
use scope_permissions::permission::MAX_VALUE;
use scope_permissions::scope::Scope;

#[test]
fn test_create_scope() {
    let scope = Scope::new("TEST_SCOPE");

    assert_eq!(scope.name, "TEST_SCOPE".to_string());
    assert_eq!(scope.scopes.is_empty(), true);
    assert_eq!(scope.permissions.is_empty(), true);
}

#[test]
fn test_scope_add_permission_ok() {
    let mut scope = Scope::new("TEST_SCOPE");

    assert_eq!(scope.name, "TEST_SCOPE".to_string());
    assert_eq!(scope.scopes.is_empty(), true);
    assert_eq!(scope.permissions.is_empty(), true);

    if let Ok(_) = scope.add_permission("TEST_PERMISSION") {
        assert_eq!(scope.permissions.len(), 1usize); // ensure that we have grown the vector by 1
    } else {
        assert!(false);
    }
}

#[test]
fn test_scope_create_and_add_permission() {
    let mut scope = Scope::new("TEST_SCOPE");
    if let Ok(sc) = scope.add_permission("TEST_PERMISSION") {
        assert_eq!(sc.permissions.len(), 1usize);
        assert_eq!(sc.permission("TEST_PERMISSION").is_some(), true);
    } else {
        assert!(false);
    }
}

#[test]
fn test_scope_add_permission_ok_multiple() {
    let mut scope = Scope::new("TEST_SCOPE");

    assert_eq!(scope.name, "TEST_SCOPE".to_string());
    assert_eq!(scope.scopes.is_empty(), true);
    assert_eq!(scope.permissions.is_empty(), true);

    let mut i: usize = 0;
    let max: usize = 50;

    // create 50 unique permission items
    loop {
        // continue adding until we have 50 items
        if i >= max {
            break;
        }

        let name = format!("TEST_PERMISSION_{}", i + 1);
        match scope.add_permission(name.as_str()).and_then(|sc| {
            match sc.permission(name.as_str()) {
                Some(perm) => {
                    assert_eq!(perm.name, name);
                    assert_eq!(perm.value, 1 << (i as u64));
                },
                _ => assert!(false),
            }
            Ok(sc)
        }) {
            Ok(sc) => {
                assert_eq!(sc.permission(name.as_str()).is_some(), true);
            },
            Err(kind) => match kind {
                ErrorKind::PermissionError(_) => println!("unexpected permission error"),
                ErrorKind::ScopeError(_) => println!("unexpected scope error"),
            },
        }

        i = i + 1
    }

    // check that all 50 are there and properly named
    assert_eq!(scope.permissions.len(), max);
}

#[test]
fn test_scope_add_permission_ok_multiple_simple() {
    let mut scope = Scope::new("TEST_SCOPE");

    if let Ok(_) = scope
        .add_permission("READ")
        .and_then(|sc| sc.add_permission("WRITE"))
        .and_then(|sc| sc.add_permission("EXECUTE"))
    {
        assert_eq!(scope.permissions.len(), 3usize);
    } else {
        assert!(false);
    }
}

#[test]
fn test_scope_add_permission_duplicate() {
    match Scope::new("TEST_SCOPE").add_permission("TEST_PERMISSION").and_then(|sc| {
        return match sc.add_permission("TEST_PERMISSION") {
            Ok(ok) => Ok(ok),
            Err(err) => Err(err),
        };
    }) {
        Ok(_) => assert!(false), // always fail here because we shouldn't succeed on a duplicate
        Err(err) => match err {
            ErrorKind::PermissionError(_) => assert!(false),
            ErrorKind::ScopeError(_) => assert!(true), // expect this error
        },
    }
}

#[test]
fn test_get_permission_exists_some() {
    match Scope::new("TEST_SCOPE").add_permission("TEST_PERMISSION") {
        Ok(scope) => {
            let perm = scope.permission("TEST_PERMISSION");

            assert_eq!(perm.is_some(), true);
        },
        Err(_) => assert!(false),
    }
}

#[test]
fn test_get_permission_missing_none() {
    let mut scope = Scope::new("TEST_SCOPE");
    let perm = scope.permission("TEST_PERMISSION");

    assert_eq!(perm.is_none(), true);
}

#[test]
fn test_get_child_scope_exists_some() {
    match Scope::new("TEST_SCOPE").add_scope("TEST_CHILD_SCOPE") {
        Ok(scope) => {
            let child_scope = scope.scope("TEST_CHILD_SCOPE");

            assert_eq!(child_scope.is_some(), true);
        },
        Err(_) => assert!(false),
    }
}

#[test]
fn test_get_child_scope_missing_none() {
    let mut scope = Scope::new("TEST_SCOPE");
    let child = scope.scope("TEST_CHILD_SCOPE");

    assert_eq!(child.is_none(), true);
}

#[test]
fn test_add_child_scope_simple() {
    let mut scope = Scope::new("TEST_SCOPE");

    if let Ok(_) = scope.add_scope("CHILD_SCOPE") {
        if let Some(child_scope) = scope.scope("CHILD_SCOPE") {
            // do something with the child scope
            assert_eq!(child_scope.name, "CHILD_SCOPE");
            assert_eq!(child_scope.scopes.is_empty(), true);
            assert_eq!(child_scope.permissions.is_empty(), true);
        }
    } else {
        // failed to create the child scope
        assert!(false);
    }
}

#[test]
fn test_add_child_and_add_permissions_to_child_scope() {
    let mut scope = Scope::new("TEST_SCOPE");

    if let Ok(_) = scope.add_scope("CHILD_SCOPE") {
        if let Some(child_scope) = scope.scope("CHILD_SCOPE") {
            // do something with the child scope
            assert_eq!(child_scope.name, "CHILD_SCOPE");
            assert_eq!(child_scope.scopes.is_empty(), true);
            assert_eq!(child_scope.permissions.is_empty(), true);

            if let Ok(_) = child_scope.add_permission("TEST_CHILD_PERMISSION") {
                assert_eq!(child_scope.permissions.len(), 1usize);
                assert_eq!(child_scope.permission("TEST_CHILD_PERMISSION").is_some(), true);
            }
        }
    } else {
        // failed to create the child scope
        assert!(false);
    }
}

/// Get the final result given a number of added permissions
/// assuming all permissions in a scope are granted.
fn get_test_scope_value(number_added: u8) -> u64 {
    return 2u64.pow(number_added as u32) - 1;
}

#[test]
fn test_util_get_test_scope_value() {
    // ensure the util function above works as expected
    let mut i = 0;
    let max_iterations = 16;
    loop {
        if i > max_iterations {
            break;
        }

        // double the previous value and add 1
        let value = get_test_scope_value(i);
        let mut expected = 0;
        if i > 0 {
            expected = get_test_scope_value(i - 1) * 2 + 1;
        }

        assert_eq!(value, expected);
        assert!(value < MAX_VALUE);

        i = i + 1;
    }
}

#[test]
fn test_as_u64_calculate_single() {
    match Scope::new("TEST_SCOPE").add_permission("TEST_PERMISSION_1") {
        Ok(scope) => {
            // find the permission and pass the borrowed variable along the chain to grant
            match scope.permission("TEST_PERMISSION_1").and_then(|perm| {
                // grant the permission
                return match perm.grant() {
                    Ok(p) => Some(p),
                    _ => None,
                };
            }) {
                Some(p) => {
                    // check successful grant
                    assert_eq!(p.has_permission, true);
                    assert_eq!(p.has(), true);
                },
                _ => assert!(false),
            }

            let value = scope.as_u64();
            assert_eq!(value, get_test_scope_value(scope.permissions.len() as u8));
        },
        _ => assert!(false),
    }
}

#[test]
fn test_add_and_grant_multiple_and_get_calculated_value() {
    let mut scope = Scope::new("TEST_SCOPE");

    if let Ok(_) = scope
        .add_permission("READ")
        .and_then(|sc| sc.add_permission("WRITE"))
        .and_then(|sc| sc.add_permission("EXECUTE"))
    {
        assert_eq!(scope.permissions.len(), 3usize);

        for perm in vec!["READ", "WRITE", "EXECUTE"] {
            scope.permission(perm).and_then(|p| {
                return if let Ok(granted) = p.grant() {
                    Some(granted)
                } else {
                    None
                };
            });
        }

        let permissions_numeric = scope.as_u64();

        assert_eq!(permissions_numeric, get_test_scope_value(3));
    } else {
        assert!(false);
    }
}

#[test]
fn test_as_u64_calculate_multiple() {
    let mut scope = Scope::new("TEST_SCOPE");
    let mut i = 0;
    let max = 53;

    loop {
        if i == max {
            break;
        }

        let name = format!("TEST_PERMISSION_{}", i);
        match scope.add_permission(name.as_str()) {
            Ok(_) => {
                // find the permission and pass the borrowed variable along the chain to grant
                scope.permission(name.as_str()).and_then(|perm| {
                    // grant the permission
                    return match perm.grant() {
                        Ok(p) => Some(p),
                        _ => {
                            assert!(false);
                            None
                        },
                    };
                });
            },
            _ => {
                panic!("Failed to grant permission '{}'", name);
            },
        }

        i = i + 1;
    }

    assert_eq!(scope.as_u64(), get_test_scope_value(scope.permissions.len() as u8));
}

fn validate_scope(left: Scope, right: Scope) -> bool {
    if !left.name.eq(right.name.as_str()) {
        println!(
            "scope name encoded to tuple ('{}') does not equal expected value ('{}')",
            left.name,
            right.name.as_str()
        );
        return false;
    }
    if left.as_u64() != right.as_u64() {
        println!(
            "permission number encoded to tuple ({}) does not equal expected value ({})",
            left.as_u64(),
            right.as_u64()
        );
        return false;
    }
    if left.permissions.len() != right.permissions.len() {
        println!(
            "permissions length encoded to tuple ({}) does not equal expected value ({})",
            left.permissions.len(),
            right.permissions.len()
        );
        return false;
    }
    if left.scopes.len() != right.scopes.len() {
        println!(
            "scopes length encoded to tuple ({}) does not equal expected value ({})",
            left.scopes.len(),
            right.scopes.len()
        );
        return false;
    }

    let mut i = 0;
    for permission in left.permissions.iter() {
        if let Some(expected_permission) =
            right.permissions.iter().find(|p| p.name == permission.name)
        {
            if !permission.name.as_str().eq(expected_permission.name.as_str()) {
                println!(
                    "name of permission at index {} ('{}') does not match expected value ('{}')",
                    i, permission.name, expected_permission.name
                );
                return false;
            }
        } else {
            println!("permission at index {} ('{}') was not found in scope", i, permission.name);
            return false;
        }

        i = i + 1;
    }

    return true;
}

#[test]
fn mod_test_export_tuple_with_permissions_no_child_scopes() {
    let mut scope = Scope::new("USER");

    if let Ok(_) = scope
        .add_permission("CREATE")
        .and_then(|sc| sc.add_permission("READ"))
        .and_then(|sc| sc.add_permission("UPDATE"))
        .and_then(|sc| sc.add_permission("DELETE"))
        .and_then(|sc| sc.add_permission("EXECUTE"))
    {
        assert_eq!(scope.permissions.len(), 5usize);

        // grant some of the permissions but not all of them
        for perm in vec!["CREATE", "READ", "EXECUTE"] {
            scope.permission(perm).and_then(|p| {
                return if let Ok(granted) = p.grant() {
                    Some(granted)
                } else {
                    None
                };
            });
        }

        assert!(validate_scope(Scope::from(scope.as_tuple()), scope));
    } else {
        assert!(false);
    }
}

#[test]
fn mod_test_export_tuple_with_child_scopes_no_permissions() {
    let mut scope = Scope::new("USER");

    // add a child scope
    if let Ok(_) = scope.add_scope("CHILD_SCOPE") {
        assert_eq!(scope.scope("CHILD_SCOPE").is_some(), true);
    } else {
        assert!(false);
    }

    assert!(validate_scope(Scope::from(scope.as_tuple()), scope));
}

#[test]
fn mod_test_export_tuple_with_child_scopes_and_root_permissions_no_child_permissions() {
    let mut scope = Scope::new("USER");

    // add a child scope
    if let Ok(_) = scope.add_scope("CHILD_SCOPE") {
        assert_eq!(scope.scope("CHILD_SCOPE").is_some(), true);
    } else {
        assert!(false);
    }

    // add permissions to containing scope
    if let Ok(_) = scope
        .add_permission("CREATE")
        .and_then(|sc| sc.add_permission("READ"))
        .and_then(|sc| sc.add_permission("UPDATE"))
        .and_then(|sc| sc.add_permission("DELETE"))
        .and_then(|sc| sc.add_permission("EXECUTE"))
    {
        assert_eq!(scope.permissions.len(), 5usize);

        // grant some of the permissions but not all of them
        for perm in vec!["CREATE", "READ", "EXECUTE"] {
            scope.permission(perm).and_then(|p| {
                return if let Ok(granted) = p.grant() {
                    Some(granted)
                } else {
                    None
                };
            });
        }
    } else {
        assert!(false);
    }

    assert!(validate_scope(Scope::from(scope.as_tuple()), scope));
}

#[test]
fn mod_test_export_tuple_with_child_scopes_and_root_permissions_and_child_permissions() {
    let mut scope = Scope::new("USER");

    // add a child scope
    if let Ok(_) = scope.add_scope("CHILD_SCOPE") {
        assert_eq!(scope.scope("CHILD_SCOPE").is_some(), true);
    } else {
        assert!(false);
    }

    if let Some(child_scope) = scope.scope("CHILD_SCOPE") {
        if let Ok(_) = child_scope.add_permission("CREATE") {
            assert_eq!(child_scope.permissions.len(), 1usize);
        }
    } else {
        assert!(false);
    }

    // add permissions to containing scope
    if let Ok(_) = scope
        .add_permission("CREATE")
        .and_then(|sc| sc.add_permission("READ"))
        .and_then(|sc| sc.add_permission("UPDATE"))
        .and_then(|sc| sc.add_permission("DELETE"))
        .and_then(|sc| sc.add_permission("EXECUTE"))
    {
        assert_eq!(scope.permissions.len(), 5usize);

        // grant some of the permissions but not all of them
        for perm in vec!["CREATE", "READ", "EXECUTE"] {
            scope.permission(perm).and_then(|p| {
                return if let Ok(granted) = p.grant() {
                    Some(granted)
                } else {
                    None
                };
            });
        }
    } else {
        assert!(false);
    }

    assert!(validate_scope(Scope::from(scope.as_tuple()), scope));
}
